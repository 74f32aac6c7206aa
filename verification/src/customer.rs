//! The bronze table of customer amounts: the columns it is declared with.

use crate::schema::{columns_view, unique_names, Column, ColumnSpec, ColumnType, Schema};
use vstd::prelude::*;

verus! {
/// The table of customer amounts.
pub struct CustomerAmount {}

/// The columns of the customer amount table: an integer `id`, a string `name` and
/// an integer `amount`, none of them nullable.
pub open spec fn customer_amount_columns() -> Seq<ColumnSpec> {
    seq![
        ColumnSpec { name: "id"@, ty: ColumnType::Integer, nullable: false },
        ColumnSpec { name: "name"@, ty: ColumnType::String, nullable: false },
        ColumnSpec { name: "amount"@, ty: ColumnType::Integer, nullable: false },
    ]
}

/// The three columns have three names.
pub proof fn lemma_customer_amount_names()
    ensures
        unique_names(customer_amount_columns()),
{
    reveal_strlit("id");
    reveal_strlit("name");
    reveal_strlit("amount");
    assert("id"@.len() == 2);
    assert("name"@.len() == 4);
}

impl CustomerAmount {
    /// The columns the table is declared with, in their order.
    pub fn columns() -> (r: Vec<Column>)
        ensures
            columns_view(r@) == customer_amount_columns(),
    {
        let mut r: Vec<Column> = Vec::new();
        r.push(Column::new("id", ColumnType::Integer, false));
        r.push(Column::new("name", ColumnType::String, false));
        r.push(Column::new("amount", ColumnType::Integer, false));
        r
    }

    /// The schema the table is declared with.
    pub fn schema() -> (s: Schema)
        ensures
            s@ == customer_amount_columns(),
    {
        proof {
            lemma_customer_amount_names();
        }
        match Schema::declare(CustomerAmount::columns()) {
            Ok(s) => s,
            Err(_) => Schema::empty(),
        }
    }
}

} // verus!
