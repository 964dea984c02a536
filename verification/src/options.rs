//! Extraction options given as strings, such as `nvt_raw:key=<hex>`.

use vstd::prelude::*;
use crate::text::{chars_of, chars_eq, starts_with, char_range, string_from_chars};

verus! {

/// Some option is exactly `option`.
pub open spec fn spec_has_option(options: Seq<String>, option: Seq<char>) -> bool {
    exists|i: int| 0 <= i < options.len() && #[trigger] options[i]@ == option
}

/// Whether `option` is one of `options`.
pub fn has_option(options: &[String], option: &str) -> (r: bool)
    ensures
        r == spec_has_option(options@, option@),
{
    let want = chars_of(option);
    let mut i: usize = 0;
    while i < options.len()
        invariant
            i <= options@.len(),
            want@ == option@,
            forall|j: int| 0 <= j < i ==> #[trigger] options@[j]@ != option@,
        decreases options@.len() - i,
    {
        let o = chars_of(options[i].as_str());
        if chars_eq(o.as_slice(), want.as_slice()) {
            assert(options@[i as int]@ == option@);
            return true;
        }
        i += 1;
    }
    false
}

/// The index of the first option that starts with `prefix`.
pub open spec fn first_with_prefix(options: Seq<String>, prefix: Seq<char>, i: int) -> Option<int>
    decreases options.len() - i,
{
    if i < 0 || i >= options.len() {
        None
    } else if prefix.is_prefix_of(options[i]@) {
        Some(i)
    } else {
        first_with_prefix(options, prefix, i + 1)
    }
}

/// What follows `prefix` in the first option that starts with it.
pub open spec fn spec_option_value(options: Seq<String>, prefix: Seq<char>) -> Option<Seq<char>> {
    match first_with_prefix(options, prefix, 0) {
        Some(i) => Some(options[i]@.skip(prefix.len() as int)),
        None => None,
    }
}

/// The value of the first option that starts with `prefix`.
pub fn option_value(options: &[String], prefix: &str) -> (r: Option<String>)
    ensures
        match spec_option_value(options@, prefix@) {
            Some(v) => r matches Some(s) && s@ == v,
            None => r is None,
        },
{
    let p = chars_of(prefix);
    let mut i: usize = 0;
    while i < options.len()
        invariant
            i <= options@.len(),
            p@ == prefix@,
            first_with_prefix(options@, prefix@, 0) == first_with_prefix(options@, prefix@, i as int),
        decreases options@.len() - i,
    {
        let o = chars_of(options[i].as_str());
        if starts_with(o.as_slice(), p.as_slice()) {
            let v = char_range(o.as_slice(), p.len(), o.len());
            assert(v@ =~= options@[i as int]@.skip(prefix@.len() as int));
            return Some(string_from_chars(v.as_slice()));
        }
        i += 1;
    }
    None
}

} // verus!
