//! Small operations on texts.

use vstd::prelude::*;
use vstd::string::{StrSliceExecFns, StringExecFns};

verus! {

/// `text` with `with` in place of every `target`.
pub open spec fn replaced(text: Seq<char>, target: char, with: Seq<char>) -> Seq<char>
    decreases text.len(),
{
    if text.len() == 0 {
        Seq::empty()
    } else if text.last() == target {
        replaced(text.drop_last(), target, with) + with
    } else {
        replaced(text.drop_last(), target, with).push(text.last())
    }
}

/// Whether `target` occurs in `text`.
pub fn has_char(text: &str, target: char) -> (r: bool)
    ensures
        r == text@.contains(target),
{
    let n = text.unicode_len();
    let mut i: usize = 0;
    while i < n
        invariant
            i <= n,
            n == text@.len(),
            forall|j: int| 0 <= j < i ==> text@[j] != target,
        decreases n - i,
    {
        if text.get_char(i) == target {
            return true;
        }
        i += 1;
    }
    false
}

/// `text` with `with` in place of every `target`.
pub fn replace_char(text: &str, target: char, with: &str) -> (r: String)
    ensures
        r@ == replaced(text@, target, with@),
{
    let n = text.unicode_len();
    let mut out = String::new();
    let mut i: usize = 0;
    while i < n
        invariant
            i <= n,
            n == text@.len(),
            out@ == replaced(text@.take(i as int), target, with@),
        decreases n - i,
    {
        proof {
            assert(text@.take(i + 1).drop_last() =~= text@.take(i as int));
        }
        if text.get_char(i) == target {
            out.append(with);
        } else {
            let one = text.substring_char(i, i + 1);
            proof {
                assert(one@ =~= seq![text@[i as int]]);
                assert(out@ + one@ =~= out@.push(text@[i as int]));
            }
            out.append(one);
        }
        i += 1;
    }
    proof {
        assert(text@.take(i as int) =~= text@);
    }
    out
}

/// The three texts one after the other.
pub fn join3(a: &str, b: &str, c: &str) -> (r: String)
    ensures
        r@ == a@ + b@ + c@,
{
    let mut out = String::from_str(a);
    out.append(b);
    out.append(c);
    out
}

} // verus!
