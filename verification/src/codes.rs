//! Code tables (schools, payment methods, card companies): the SQL each
//! operation runs on each table, how a payload is bound, how rows read
//! back, and the user-facing messages for duplicates and missing rows.

use vstd::prelude::*;
use vstd::string::*;
use crate::error::AppError;
use crate::text::{has_substring, int_text, text_contains, i64_text};

verus! {

/// A code table.
#[derive(Clone, Copy, Debug, PartialEq, Eq, Structural)]
pub enum CodeTable {
    Schools,
    PaymentMethods,
    CardCompanies,
}

pub open spec fn table_text(t: CodeTable) -> Seq<char> {
    match t {
        CodeTable::Schools => "schools"@,
        CodeTable::PaymentMethods => "payment_methods"@,
        CodeTable::CardCompanies => "card_companies"@,
    }
}

pub open spec fn list_text(t: CodeTable) -> Seq<char> {
    match t {
        CodeTable::Schools => "SELECT id, name AS code, name AS label, school_type AS extra, sort_order, is_active FROM schools ORDER BY sort_order ASC, name ASC LIMIT ? OFFSET ?"@,
        CodeTable::PaymentMethods => "SELECT id, code, label, display_order AS sort_order, is_active FROM payment_methods ORDER BY display_order ASC, label ASC LIMIT ? OFFSET ?"@,
        CodeTable::CardCompanies => "SELECT id, code, label, display_order AS sort_order, is_active FROM card_companies ORDER BY display_order ASC, label ASC LIMIT ? OFFSET ?"@,
    }
}

pub open spec fn count_text(t: CodeTable) -> Seq<char> {
    match t {
        CodeTable::Schools => "SELECT COUNT(*) AS cnt FROM schools"@,
        CodeTable::PaymentMethods => "SELECT COUNT(*) AS cnt FROM payment_methods"@,
        CodeTable::CardCompanies => "SELECT COUNT(*) AS cnt FROM card_companies"@,
    }
}

pub open spec fn insert_text(t: CodeTable) -> Seq<char> {
    match t {
        CodeTable::Schools => "INSERT INTO schools (name, school_type, sort_order, is_active) VALUES (?, COALESCE(?, 'etc'), ?, 1) RETURNING id, name AS code, name AS label, school_type AS extra, sort_order, is_active"@,
        CodeTable::PaymentMethods => "INSERT INTO payment_methods (code, label, display_order, is_active) VALUES (?, ?, ?, 1) RETURNING id, code, label, display_order AS sort_order, is_active"@,
        CodeTable::CardCompanies => "INSERT INTO card_companies (code, label, display_order, is_active) VALUES (?, ?, ?, 1) RETURNING id, code, label, display_order AS sort_order, is_active"@,
    }
}

pub open spec fn update_text(t: CodeTable) -> Seq<char> {
    match t {
        CodeTable::Schools => "UPDATE schools SET name = ?, school_type = COALESCE(?, school_type), sort_order = ?, is_active = ?, updated_at = strftime('%Y-%m-%dT%H:%M:%fZ', 'now') WHERE id = ? RETURNING id, name AS code, name AS label, school_type AS extra, sort_order, is_active"@,
        CodeTable::PaymentMethods => "UPDATE payment_methods SET label = ?, display_order = ?, is_active = ? WHERE id = ? RETURNING id, code, label, display_order AS sort_order, is_active"@,
        CodeTable::CardCompanies => "UPDATE card_companies SET label = ?, display_order = ?, is_active = ? WHERE id = ? RETURNING id, code, label, display_order AS sort_order, is_active"@,
    }
}

/// The column that orders a table's entries.
pub open spec fn order_column(t: CodeTable) -> Seq<char> {
    match t {
        CodeTable::Schools => "sort_order"@,
        _ => "display_order"@,
    }
}

/// What a duplicate of a table's code is called in messages.
pub open spec fn duplicate_label(t: CodeTable) -> Seq<char> {
    match t {
        CodeTable::Schools => "학교명"@,
        CodeTable::PaymentMethods => "결제 수단 코드"@,
        CodeTable::CardCompanies => "카드사 코드"@,
    }
}

impl CodeTable {
    /// The table's name in the database.
    pub fn table_name(self) -> (r: &'static str)
        ensures
            r@ == table_text(self),
    {
        match self {
            CodeTable::Schools => "schools",
            CodeTable::PaymentMethods => "payment_methods",
            CodeTable::CardCompanies => "card_companies",
        }
    }

    /// The paged listing query (`LIMIT ? OFFSET ?` after the ordering).
    pub fn list_sql(self) -> (r: &'static str)
        ensures
            r@ == list_text(self),
    {
        match self {
            CodeTable::Schools => "SELECT id, name AS code, name AS label, school_type AS extra, sort_order, is_active FROM schools ORDER BY sort_order ASC, name ASC LIMIT ? OFFSET ?",
            CodeTable::PaymentMethods => "SELECT id, code, label, display_order AS sort_order, is_active FROM payment_methods ORDER BY display_order ASC, label ASC LIMIT ? OFFSET ?",
            CodeTable::CardCompanies => "SELECT id, code, label, display_order AS sort_order, is_active FROM card_companies ORDER BY display_order ASC, label ASC LIMIT ? OFFSET ?",
        }
    }

    /// The query counting the table's entries.
    pub fn count_sql(self) -> (r: &'static str)
        ensures
            r@ == count_text(self),
    {
        match self {
            CodeTable::Schools => "SELECT COUNT(*) AS cnt FROM schools",
            CodeTable::PaymentMethods => "SELECT COUNT(*) AS cnt FROM payment_methods",
            CodeTable::CardCompanies => "SELECT COUNT(*) AS cnt FROM card_companies",
        }
    }

    /// The insertion query, returning the new row.
    pub fn insert_sql(self) -> (r: &'static str)
        ensures
            r@ == insert_text(self),
    {
        match self {
            CodeTable::Schools => "INSERT INTO schools (name, school_type, sort_order, is_active) VALUES (?, COALESCE(?, 'etc'), ?, 1) RETURNING id, name AS code, name AS label, school_type AS extra, sort_order, is_active",
            CodeTable::PaymentMethods => "INSERT INTO payment_methods (code, label, display_order, is_active) VALUES (?, ?, ?, 1) RETURNING id, code, label, display_order AS sort_order, is_active",
            CodeTable::CardCompanies => "INSERT INTO card_companies (code, label, display_order, is_active) VALUES (?, ?, ?, 1) RETURNING id, code, label, display_order AS sort_order, is_active",
        }
    }

    /// The update query, returning the updated row.
    pub fn update_sql(self) -> (r: &'static str)
        ensures
            r@ == update_text(self),
    {
        match self {
            CodeTable::Schools => "UPDATE schools SET name = ?, school_type = COALESCE(?, school_type), sort_order = ?, is_active = ?, updated_at = strftime('%Y-%m-%dT%H:%M:%fZ', 'now') WHERE id = ? RETURNING id, name AS code, name AS label, school_type AS extra, sort_order, is_active",
            CodeTable::PaymentMethods => "UPDATE payment_methods SET label = ?, display_order = ?, is_active = ? WHERE id = ? RETURNING id, code, label, display_order AS sort_order, is_active",
            CodeTable::CardCompanies => "UPDATE card_companies SET label = ?, display_order = ?, is_active = ? WHERE id = ? RETURNING id, code, label, display_order AS sort_order, is_active",
        }
    }

    /// Only schools bind a school type in updates (after the label).
    pub fn update_binds_extra(self) -> (r: bool)
        ensures
            r == (self == CodeTable::Schools),
    {
        match self {
            CodeTable::Schools => true,
            _ => false,
        }
    }

    /// The query setting one entry's position: `UPDATE {table} SET {column} = ? WHERE id = ?`.
    pub fn reorder_sql(self) -> (r: String)
        ensures
            r@ == "UPDATE "@ + table_text(self) + " SET "@ + order_column(self) + " = ? WHERE id = ?"@,
    {
        let column = match self {
            CodeTable::Schools => "sort_order",
            CodeTable::PaymentMethods | CodeTable::CardCompanies => "display_order",
        };
        let s = String::from_str("UPDATE ").concat(self.table_name());
        let s = s.concat(" SET ").concat(column);
        s.concat(" = ? WHERE id = ?")
    }
}

/// An entry of a code table, as shown to the user.
#[derive(Clone, Debug, PartialEq, Eq)]
pub struct CodeEntry {
    pub id: i64,
    pub code: String,
    pub label: String,
    pub extra: Option<String>,
    pub sort_order: i64,
    pub is_active: bool,
}

/// A new entry: `code` is the school name for schools; the other tables use
/// `code` and `label`.
#[derive(Clone, Debug, PartialEq, Eq)]
pub struct NewCode {
    pub code: String,
    pub label: Option<String>,
    pub extra: Option<String>,
    pub sort_order: Option<i64>,
}

/// A change to an entry: `label` is the new school name for schools; the
/// other tables keep their code.
#[derive(Clone, Debug, PartialEq, Eq)]
pub struct CodeUpdate {
    pub label: String,
    pub extra: Option<String>,
    pub sort_order: i64,
    pub is_active: bool,
}

/// The values bound to an insertion, in order.
pub struct InsertBinds {
    pub code: String,
    pub second: Option<String>,
    pub sort_order: i64,
}

/// The values bound to an insertion: the code; for schools the school type,
/// for the other tables the label or, without one, the code again; and the
/// position, 0 when none is given.
pub fn insert_binds(table: CodeTable, payload: &NewCode) -> (r: InsertBinds)
    ensures
        r.code@ == payload.code@,
        r.sort_order == match payload.sort_order {
            Some(o) => o,
            None => 0,
        },
        table == CodeTable::Schools ==> r.second == payload.extra,
        table != CodeTable::Schools ==> (r.second matches Some(l) && l@ == match payload.label {
            Some(x) => x@,
            None => payload.code@,
        }),
{
    let order = match payload.sort_order {
        Some(o) => o,
        None => 0,
    };
    let second = match table {
        CodeTable::Schools => payload.extra.clone(),
        CodeTable::PaymentMethods | CodeTable::CardCompanies => match &payload.label {
            Some(l) => Some(l.clone()),
            None => Some(payload.code.clone()),
        },
    };
    InsertBinds { code: payload.code.clone(), second, sort_order: order }
}

/// An entry read back from its row's columns: active unless `is_active` is 0.
pub fn entry_from_columns(
    id: i64,
    code: String,
    label: String,
    extra: Option<String>,
    sort_order: i64,
    is_active: i64,
) -> (r: CodeEntry)
    ensures
        r == (CodeEntry { id, code, label, extra, sort_order, is_active: is_active != 0 }),
{
    CodeEntry { id, code, label, extra, sort_order, is_active: is_active != 0 }
}

/// The refusal of a duplicate code: `{label} '{code}' 은(는) 이미 등록되어 있습니다.`
pub open spec fn duplicate_message(table: CodeTable, code: Seq<char>) -> Seq<char> {
    duplicate_label(table) + " '"@ + code + "' 은(는) 이미 등록되어 있습니다."@
}

/// The user-facing refusal for a database error with message `db_message`
/// that reports a broken uniqueness rule (it mentions `UNIQUE`); `None` for
/// any other error, which stays a database error.
pub fn map_code_unique(code: &str, table: CodeTable, db_message: Option<&str>) -> (r: Option<AppError>)
    ensures
        match db_message {
            Some(m) => if has_substring(m@, "UNIQUE"@) {
                r matches Some(e) && e is UserFacing && e.message_view() == duplicate_message(table, code@)
            } else {
                r is None
            },
            None => r is None,
        },
{
    match db_message {
        None => None,
        Some(m) => {
            if text_contains(m, "UNIQUE") {
                let label = match table {
                    CodeTable::Schools => "학교명",
                    CodeTable::PaymentMethods => "결제 수단 코드",
                    CodeTable::CardCompanies => "카드사 코드",
                };
                let s = String::from_str(label).concat(" '").concat(code);
                Some(AppError::UserFacing(s.concat("' 은(는) 이미 등록되어 있습니다.")))
            } else {
                None
            }
        },
    }
}

/// The refusal of an update whose row is missing:
/// `{table} 항목을 찾을 수 없습니다 (id={id}).`
pub fn entry_not_found(table: CodeTable, id: i64) -> (r: AppError)
    ensures
        r is UserFacing,
        r.message_view() == table_text(table) + " 항목을 찾을 수 없습니다 (id="@ + int_text(id as int) + ")."@,
{
    let s = String::from_str(table.table_name()).concat(" 항목을 찾을 수 없습니다 (id=");
    let n = i64_text(id);
    let s = s.concat(n.as_str());
    AppError::UserFacing(s.concat(")."))
}

} // verus!
