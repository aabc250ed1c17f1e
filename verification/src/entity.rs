//! The entities of the history check: registrations, row statuses, rows.

use vstd::prelude::*;

use crate::page::InvoiceInfo;

verus! {

/// Registration information for one T-number.
#[derive(Debug, Clone)]
pub struct InvoiceRegistration {
    pub t_number: String,
    pub name: String,
    pub registration_date: String,
    pub address: String,
    pub last_updated: String,
    pub registered: bool,
}

/// The content of an [`InvoiceRegistration`].
pub struct RegistrationFields {
    pub t_number: Seq<char>,
    pub name: Seq<char>,
    pub registration_date: Seq<char>,
    pub address: Seq<char>,
    pub last_updated: Seq<char>,
    pub registered: bool,
}

impl View for InvoiceRegistration {
    type V = RegistrationFields;

    open spec fn view(&self) -> RegistrationFields {
        RegistrationFields {
            t_number: self.t_number@,
            name: self.name@,
            registration_date: self.registration_date@,
            address: self.address@,
            last_updated: self.last_updated@,
            registered: self.registered,
        }
    }
}

impl InvoiceRegistration {
    /// The registration of `t_number` from what the registry reported.
    pub fn from_lookup(t_number: &str, info: InvoiceInfo) -> (r: InvoiceRegistration)
        ensures
            r@ == (RegistrationFields {
                t_number: t_number@,
                name: info.name@,
                registration_date: info.registration_date@,
                address: info.address@,
                last_updated: info.last_updated@,
                registered: info.registered,
            }),
    {
        InvoiceRegistration {
            t_number: String::from_str(t_number),
            name: info.name,
            registration_date: info.registration_date,
            address: info.address,
            last_updated: info.last_updated,
            registered: info.registered,
        }
    }
}

/// The registration status of one history row.
#[derive(Debug, Clone)]
pub enum RegistrationStatus {
    /// Registered (the use is on or after the registration date).
    Registered,
    /// Used before the registration date.
    BeforeRegistration,
    /// Not registered with the registry.
    Unregistered,
    /// The row holds no T-number.
    NoNumber,
    /// The status could not be determined.
    Error(String),
}

impl RegistrationStatus {
    /// The label written into the sheet for this status.
    pub open spec fn label_spec(&self) -> Seq<char> {
        match self {
            RegistrationStatus::Registered => "登録済"@,
            RegistrationStatus::BeforeRegistration => "登録前"@,
            RegistrationStatus::Unregistered => "未登録"@,
            RegistrationStatus::NoNumber => "番号なし"@,
            RegistrationStatus::Error(_) => "確認不可"@,
        }
    }

    /// The label written into the sheet for this status.
    pub fn label(&self) -> (s: &'static str)
        ensures
            s@ == self.label_spec(),
    {
        match self {
            RegistrationStatus::Registered => "登録済",
            RegistrationStatus::BeforeRegistration => "登録前",
            RegistrationStatus::Unregistered => "未登録",
            RegistrationStatus::NoNumber => "番号なし",
            RegistrationStatus::Error(_) => "確認不可",
        }
    }
}

/// Statuses with different labels are different kinds of status: only the
/// error variants share one label.
pub proof fn law_labels_distinct(a: RegistrationStatus, b: RegistrationStatus)
    ensures
        a.label_spec() == b.label_spec() <==> (a == b || (a is Error && b is Error)),
{
    reveal_strlit("登録済");
    reveal_strlit("登録前");
    reveal_strlit("未登録");
    reveal_strlit("番号なし");
    reveal_strlit("確認不可");
    assert("登録済"@ != "登録前"@) by {
        assert("登録済"@[2] != "登録前"@[2]);
    }
    assert("登録済"@ != "未登録"@) by {
        assert("登録済"@[0] != "未登録"@[0]);
    }
    assert("登録前"@ != "未登録"@) by {
        assert("登録前"@[0] != "未登録"@[0]);
    }
    assert("番号なし"@ != "確認不可"@) by {
        assert("番号なし"@[0] != "確認不可"@[0]);
    }
    assert("番号なし"@.len() == 4 && "確認不可"@.len() == 4);
    assert("登録済"@.len() == 3 && "登録前"@.len() == 3 && "未登録"@.len() == 3);
}

/// One data row of the history sheet with its registration status.
#[derive(Debug, Clone)]
pub struct HistoryRow {
    /// The row's line number in the sheet (the header is line 1).
    pub line_number: usize,
    /// The row as it stands in the sheet.
    pub raw_line: String,
    /// The row's normalised T-number, if it has one.
    pub t_number: Option<String>,
    pub status: RegistrationStatus,
}

} // verus!
