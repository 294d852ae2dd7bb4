//! The last component of a textual path.

use vstd::prelude::*;
use vstd::string::*;

verus! {

/// Both `/` and `\` separate the components of a path, so that a path written
/// on one host names the same file on any other.
pub open spec fn is_separator(c: char) -> bool {
    c == '/' || c == '\\'
}

/// The position just behind the last separator of `path`, or 0 where it holds none.
pub open spec fn base_name_start(path: Seq<char>) -> int
    decreases path.len(),
{
    if path.len() == 0 {
        0
    } else if is_separator(path.last()) {
        path.len() as int
    } else {
        base_name_start(path.drop_last())
    }
}

/// The base name of `path`: what follows its last separator.
pub open spec fn base_name(path: Seq<char>) -> Seq<char> {
    path.subrange(base_name_start(path), path.len() as int)
}

/// The base name is the longest suffix of the path that holds no separator.
pub proof fn lemma_base_name_is_last_component(path: Seq<char>)
    ensures
        0 <= base_name_start(path) <= path.len(),
        forall|i: int|
            base_name_start(path) <= i < path.len() ==> !is_separator(#[trigger] path[i]),
        base_name_start(path) > 0 ==> is_separator(path[base_name_start(path) - 1]),
        forall|i: int|
            0 <= i < base_name(path).len() ==> !is_separator(#[trigger] base_name(path)[i]),
    decreases path.len(),
{
    if path.len() > 0 && !is_separator(path.last()) {
        let shorter = path.drop_last();
        lemma_base_name_is_last_component(shorter);
        assert forall|i: int| base_name_start(path) <= i < path.len() implies !is_separator(
            #[trigger] path[i],
        ) by {
            if i < shorter.len() {
                assert(path[i] == shorter[i]);
            }
        }
    }
}

/// A path that holds no separator is its own base name.
pub proof fn lemma_base_name_of_plain_name(path: Seq<char>)
    requires
        forall|i: int| 0 <= i < path.len() ==> !is_separator(#[trigger] path[i]),
    ensures
        base_name_start(path) == 0,
        base_name(path) == path,
    decreases path.len(),
{
    if path.len() > 0 {
        let shorter = path.drop_last();
        assert forall|i: int| 0 <= i < shorter.len() implies !is_separator(
            #[trigger] shorter[i],
        ) by {
            assert(shorter[i] == path[i]);
        }
        lemma_base_name_of_plain_name(shorter);
        assert(!is_separator(path[path.len() - 1]));
    }
    assert(base_name(path) =~= path);
}

/// Returns the part of `path` behind its last separator.
pub fn file_name(path: &str) -> (name: &str)
    ensures
        name@ == base_name(path@),
{
    let n = path.unicode_len();
    let mut start: usize = 0;
    let mut i: usize = 0;
    while i < n
        invariant
            i <= n,
            n == path@.len(),
            start == base_name_start(path@.take(i as int)),
            start <= i,
        decreases n - i,
    {
        let c = path.get_char(i);
        proof {
            let next = path@.take(i + 1);
            assert(next.drop_last() =~= path@.take(i as int));
            assert(next.last() == c);
        }
        if c == '/' || c == '\\' {
            start = i + 1;
        }
        i += 1;
    }
    proof {
        assert(path@.take(n as int) =~= path@);
    }
    path.substring_char(start, n)
}

} // verus!
