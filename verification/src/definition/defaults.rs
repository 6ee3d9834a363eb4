//! The values a definition takes where it leaves an attribute out.
use vstd::prelude::*;
use crate::text::str_eq;

verus! {

pub fn get_constraint_deferrable() -> (r: bool)
    ensures
        r == false,
{
    false
}

pub fn get_constraint_initially_deferred() -> (r: bool)
    ensures
        r == false,
{
    false
}

pub fn get_foreign_key_match_option() -> (r: String)
    ensures
        r@ == "SIMPLE"@,
{
    "SIMPLE".to_owned()
}

pub fn get_foreign_key_update_rule() -> (r: String)
    ensures
        r@ == "NO ACTION"@,
{
    "NO ACTION".to_owned()
}

pub fn get_foreign_key_delete_rule() -> (r: String)
    ensures
        r@ == "NO ACTION"@,
{
    "NO ACTION".to_owned()
}

pub fn get_index_unique() -> (r: bool)
    ensures
        r == false,
{
    false
}

pub fn get_default_index_method() -> (r: String)
    ensures
        r@ == "btree"@,
{
    "btree".to_owned()
}

pub fn get_default_index_order() -> (r: String)
    ensures
        r@ == "ASC"@,
{
    "ASC".to_owned()
}

pub fn get_default_index_asc_nulls() -> (r: String)
    ensures
        r@ == "LAST"@,
{
    "LAST".to_owned()
}

pub fn get_default_index_desc_nulls() -> (r: String)
    ensures
        r@ == "FIRST"@,
{
    "FIRST".to_owned()
}

pub fn get_default_column_default() -> (r: String)
    ensures
        r@ == ""@,
{
    "".to_owned()
}

pub fn get_default_description() -> (r: String)
    ensures
        r@ == ""@,
{
    "".to_owned()
}

pub fn get_function_language() -> (r: String)
    ensures
        r@ == "SQL"@,
{
    "SQL".to_owned()
}

pub fn get_function_returns() -> (r: String)
    ensures
        r@ == "void"@,
{
    "void".to_owned()
}

pub fn get_function_volatility() -> (r: String)
    ensures
        r@ == "VOLATILE"@,
{
    "VOLATILE".to_owned()
}

pub fn get_sequence_data_type() -> (r: String)
    ensures
        r@ == "int8"@,
{
    "int8".to_owned()
}

pub fn get_sequence_increment() -> (r: i64)
    ensures
        r == 1,
{
    1
}

pub fn get_sequence_cache() -> (r: i64)
    ensures
        r == 1,
{
    1
}

pub fn get_sequence_cycle() -> (r: bool)
    ensures
        r == false,
{
    false
}

/// The integer types a sequence can have.
pub open spec fn is_sequence_data_type(data_type: Seq<char>) -> bool {
    data_type == "int2"@ || data_type == "int4"@ || data_type == "int8"@
}

/// The least value of a sequence's type: 1 for an ascending sequence, the least
/// value of its integer type for a descending one.
pub open spec fn sequence_min_value(increment: i64, data_type: Seq<char>) -> i64 {
    if increment >= 0 {
        1
    } else if data_type == "int2"@ {
        -32768i64
    } else if data_type == "int4"@ {
        -2147483648i64
    } else {
        -9223372036854775808i64
    }
}

/// The greatest value of a sequence's type: the greatest value of its integer type
/// for an ascending sequence, -1 for a descending one.
pub open spec fn sequence_max_value(increment: i64, data_type: Seq<char>) -> i64 {
    if increment < 0 {
        -1i64
    } else if data_type == "int2"@ {
        32767
    } else if data_type == "int4"@ {
        2147483647
    } else {
        9223372036854775807
    }
}

/// A sequence starts at its least value when it ascends, at its greatest when it descends.
pub open spec fn sequence_start(increment: i64, min_value: i64, max_value: i64) -> i64 {
    if increment >= 0 {
        min_value
    } else {
        max_value
    }
}

/// The data type's least value is known: the sequence ascends, or its type is an integer type.
pub open spec fn min_value_defined(increment: i64, data_type: Seq<char>) -> bool {
    increment >= 0 || is_sequence_data_type(data_type)
}

/// The data type's greatest value is known: the sequence descends, or its type is an integer type.
pub open spec fn max_value_defined(increment: i64, data_type: Seq<char>) -> bool {
    increment < 0 || is_sequence_data_type(data_type)
}

pub fn get_sequence_min_value(increment: i64, data_type: &str) -> (r: i64)
    requires
        min_value_defined(increment, data_type@),
    ensures
        r == sequence_min_value(increment, data_type@),
{
    if increment >= 0 {
        return 1;
    }
    if str_eq(data_type, "int2") {
        -32768
    } else if str_eq(data_type, "int4") {
        -2147483648
    } else {
        -9223372036854775808
    }
}

pub fn get_sequence_max_value(increment: i64, data_type: &str) -> (r: i64)
    requires
        max_value_defined(increment, data_type@),
    ensures
        r == sequence_max_value(increment, data_type@),
{
    if increment < 0 {
        return -1;
    }
    if str_eq(data_type, "int2") {
        32767
    } else if str_eq(data_type, "int4") {
        2147483647
    } else {
        9223372036854775807
    }
}

pub fn get_sequence_start(increment: i64, min_value: i64, max_value: i64) -> (r: i64)
    ensures
        r == sequence_start(increment, min_value, max_value),
{
    if increment >= 0 {
        min_value
    } else {
        max_value
    }
}

} // verus!
