use vstd::prelude::*;

verus! {

/// Dispatches one command line to its handler.
#[derive(Debug)]
pub struct CommandManager;

/// A batch-insignificant character: ASCII whitespace.
pub open spec fn is_space(c: char) -> bool {
    c == ' ' || c == '\t' || c == '\r' || c == '\n'
}

/// A batch line to skip: blank, or a comment whose first non-blank
/// character is a hash.
pub open spec fn skippable_line(s: Seq<char>) -> bool {
    (forall|i: int| 0 <= i < s.len() ==> is_space(#[trigger] s[i])) || (exists|i: int|
        0 <= i < s.len() && #[trigger] s[i] == '#' && forall|j: int| 0 <= j < i ==> is_space(s[j]))
}

impl CommandManager {
    /// Whether batch execution skips this line.
    pub fn is_skippable_line(line: &str) -> (r: bool)
        ensures
            r == skippable_line(line@),
    {
        let n: usize = line.unicode_len();
        let mut i: usize = 0;
        while i < n
            invariant
                n == line@.len(),
                0 <= i <= n,
                forall|j: int| 0 <= j < i ==> is_space(#[trigger] line@[j]),
            decreases n - i,
        {
            let c = line.get_char(i);
            if !(c == ' ' || c == '\t' || c == '\r' || c == '\n') {
                if c == '#' {
                    proof {
                        assert(line@[i as int] == '#');
                    }
                    return true;
                }
                proof {
                    assert(!is_space(line@[i as int]));
                    assert forall|k: int|
                        0 <= k < line@.len() && #[trigger] line@[k] == '#' implies !(forall|j: int|
                        0 <= j < k ==> is_space(line@[j])) by {
                        if k <= i {
                            assert(line@[k] == '#');
                            assert(!is_space(line@[k]));
                            assert(k != i as int);
                            assert(is_space(line@[k]));
                        } else {
                            assert(!is_space(line@[i as int]));
                        }
                    }
                }
                return false;
            }
            i = i + 1;
        }
        true
    }
}

} // verus!
