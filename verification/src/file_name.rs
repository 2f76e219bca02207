//! File names and their extensions.

use vstd::prelude::*;
use vstd::string::StrSliceExecFns;
use crate::text::chars_of;

verus! {

/// The place of the last dot of `name`.
pub open spec fn last_dot(name: Seq<char>) -> Option<int>
    decreases name.len(),
{
    if name.len() == 0 {
        None
    } else if name.last() == '.' {
        Some(name.len() - 1)
    } else {
        last_dot(name.drop_last())
    }
}

/// The extension of a file called `name`: what follows the last dot of the
/// name. A name without a dot has none, nor has a name whose only dot is its
/// first character, nor the name `..`.
pub open spec fn extension_of(name: Seq<char>) -> Option<Seq<char>> {
    match last_dot(name) {
        Some(dot) => if dot == 0 || name == seq!['.', '.'] {
            None
        } else {
            Some(name.skip(dot + 1))
        },
        None => None,
    }
}

/// The extension of a file called `file_name`, if it has one.
pub fn file_extension(file_name: &str) -> (extension: Option<&str>)
    ensures
        match extension {
            Some(e) => extension_of(file_name@) == Some(e@),
            None => extension_of(file_name@) is None,
        },
{
    let chars = chars_of(file_name);
    let n: usize = chars.len();
    let mut end: usize = n;
    assert(chars@.take(n as int) =~= chars@);
    while end > 0 && chars[end - 1] != '.'
        invariant
            end <= n,
            n == chars@.len(),
            last_dot(chars@) == last_dot(chars@.take(end as int)),
        decreases end,
    {
        assert(chars@.take(end as int).drop_last() =~= chars@.take(end - 1));
        end -= 1;
    }
    if end == 0 {
        return None;
    }
    let dot: usize = end - 1;
    assert(chars@.take(end as int).last() == '.');
    assert(last_dot(chars@) == Some(dot as int));
    if dot == 0 {
        return None;
    }
    if n == 2 && chars[0] == '.' {
        assert(chars@ =~= seq!['.', '.']);
        return None;
    }
    assert(chars@ != seq!['.', '.']) by {
        if chars@ == seq!['.', '.'] {
            assert(chars@.len() == 2);
            assert(chars@[0] == '.');
        }
    }
    Some(file_name.substring_char(dot + 1, n))
}

} // verus!
