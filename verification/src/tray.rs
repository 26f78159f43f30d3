//! The text the tray icon shows.
use vstd::prelude::*;

use crate::text::{chars_of, split_chars, split_on, string_of, views};

verus! {

/// The major version shown on the tray icon: the version without one
/// leading `v`, up to its first `.`.
pub open spec fn icon_label_spec(version: Seq<char>) -> Seq<char> {
    let rest = if version.len() > 0 && version[0] == 'v' {
        version.skip(1)
    } else {
        version
    };
    split_on(rest, '.')[0]
}

/// The major version shown on the tray icon.
pub fn icon_label(version: &str) -> (l: String)
    ensures
        l@ == icon_label_spec(version@),
{
    let v = chars_of(version);
    let rest = if v.len() > 0 && v[0] == 'v' {
        crate::text::subrange_chars(&v, 1, v.len())
    } else {
        v
    };
    let parts = split_chars(&rest, '.');
    proof {
        crate::text::lemma_split_on_nonempty(rest@, '.');
    }
    assert(views(parts@)[0] == parts@[0]@);
    string_of(&parts[0])
}

} // verus!
