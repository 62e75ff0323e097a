//! Names of the generated types.
use vstd::prelude::*;

verus! {

/// The type name that belongs to a table name: the table name in upper camel case.
pub uninterp spec fn struct_name_of(table_name: Seq<char>) -> Seq<char>;

/// Calls `catalytic::capitalizing::table_name_to_struct_name`, which turns a table name
/// into upper camel case. The result depends on the table name alone.
#[verifier::external_body]
pub(crate) fn table_struct_name(table_name: &str) -> (name: String)
    ensures
        name@ == struct_name_of(table_name@),
{
    catalytic::capitalizing::table_name_to_struct_name(table_name)
}

} // verus!
