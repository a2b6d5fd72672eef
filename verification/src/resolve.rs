//! Mapping a URL-space request path onto the filesystem space below the
//! configured root.
//!
//! A request path is a sequence of already URL-decoded segments. Resolution
//! normalizes it lexically: empty and `.` segments are dropped, and a `..`
//! segment removes the segment before it. A `..` with nothing left to remove
//! would step above the root, and the whole request is rejected as a path
//! escape at that point — before any filesystem access, so the existence of
//! paths outside the root can never be probed.

use vstd::prelude::*;

verus! {

use crate::ServeError;

/// A request path resolved against the root: the normalized segments
/// relative to the root, and whether the target is the root itself.
#[derive(Debug)]
pub struct ResolvedTarget {
    pub segments: Vec<String>,
    pub is_root: bool,
}

/// Lexical normalization of request segments, `None` where a `..` would
/// step above the root.
pub open spec fn norm_segments(segs: Seq<Seq<char>>) -> Option<Seq<Seq<char>>>
    decreases segs.len(),
{
    if segs.len() == 0 {
        Some(Seq::empty())
    } else {
        match norm_segments(segs.drop_last()) {
            None => None,
            Some(st) => {
                let s = segs.last();
                if s.len() == 0 || s == seq!['.'] {
                    Some(st)
                } else if s == seq!['.', '.'] {
                    if st.len() == 0 {
                        None
                    } else {
                        Some(st.drop_last())
                    }
                } else {
                    Some(st.push(s))
                }
            },
        }
    }
}

proof fn lemma_norm_none_extends(segs: Seq<Seq<char>>, i: int)
    requires
        0 <= i <= segs.len(),
        norm_segments(segs.subrange(0, i)) is None,
    ensures
        norm_segments(segs) is None,
    decreases segs.len() - i,
{
    if i == segs.len() {
        assert(segs.subrange(0, i) =~= segs);
    } else {
        assert(segs.subrange(0, i + 1).drop_last() =~= segs.subrange(0, i));
        assert(norm_segments(segs.subrange(0, i + 1)) is None);
        lemma_norm_none_extends(segs, i + 1);
    }
}

/// A successful resolution yields only plain segments: no `.` or `..` (or
/// empty segment) survives normalization, so the target, joined below the
/// root, is the root or one of its descendants and can never leave it.
pub proof fn lemma_resolved_within_root(segs: Seq<Seq<char>>)
    requires
        norm_segments(segs) is Some,
    ensures
        forall|i: int|
            0 <= i < norm_segments(segs).unwrap().len() ==> (#[trigger] norm_segments(
                segs,
            ).unwrap()[i]).len() > 0 && norm_segments(segs).unwrap()[i] != seq!['.']
                && norm_segments(segs).unwrap()[i] != seq!['.', '.'],
    decreases segs.len(),
{
    if segs.len() > 0 {
        lemma_resolved_within_root(segs.drop_last());
        let st = norm_segments(segs.drop_last()).unwrap();
        let s = segs.last();
        if s.len() == 0 || s == seq!['.'] {
        } else if s == seq!['.', '.'] {
            assert(forall|i: int|
                0 <= i < st.drop_last().len() ==> st.drop_last()[i] == st[i]);
        } else {
        }
    }
}

/// Resolves a request path against the configured root, rejecting with
/// `PathEscape` any path whose normalization would step above the root.
pub fn resolve(request: &Vec<String>) -> (r: Result<ResolvedTarget, ServeError>)
    ensures
        r is Ok <==> norm_segments(request.deep_view()) is Some,
        r is Ok ==> r->Ok_0.segments.deep_view() == norm_segments(request.deep_view()).unwrap(),
        r is Ok ==> (r->Ok_0.is_root <==> norm_segments(request.deep_view()).unwrap().len() == 0),
        r is Err ==> r->Err_0 == ServeError::PathEscape,
{
    let ghost all: Seq<Seq<char>> = request.deep_view();
    let mut stack: Vec<String> = Vec::new();
    let n = request.len();
    let mut i: usize = 0;
    while i < n
        invariant
            n == request@.len(),
            all == request.deep_view(),
            i <= n,
            norm_segments(all.subrange(0, i as int)) == Some(stack.deep_view()),
        decreases n - i,
    {
        let seg: &String = &request[i];
        proof {
            assert(all.subrange(0, i + 1).drop_last() =~= all.subrange(0, i as int));
            assert(all.subrange(0, i + 1).last() == seg@);
        }
        let len = seg.as_str().unicode_len();
        let is_dot = len == 1 && seg.as_str().get_char(0) == '.';
        let is_dot_dot = len == 2 && seg.as_str().get_char(0) == '.' && seg.as_str().get_char(1)
            == '.';
        if len == 0 || is_dot {
            proof {
                if is_dot {
                    assert(seg@ =~= seq!['.']);
                }
            }
        } else if is_dot_dot {
            proof {
                assert(seg@ =~= seq!['.', '.']);
            }
            if stack.len() == 0 {
                proof {
                    lemma_norm_none_extends(all, i + 1);
                }
                return Err(ServeError::PathEscape);
            }
            stack.pop();
            proof {
                assert(stack.deep_view() =~= norm_segments(all.subrange(0, i + 1)).unwrap());
            }
        } else {
            proof {
                assert(seg@.len() > 0);
                assert(seg@ != seq!['.'] && seg@ != seq!['.', '.']) by {
                    if len == 1 {
                        assert(seg@[0] != '.');
                    }
                    if len == 2 {
                        assert(seg@[0] != '.' || seg@[1] != '.');
                    }
                    assert(seq!['.'].len() == 1);
                    assert(seq!['.', '.'].len() == 2);
                }
            }
            stack.push(seg.clone());
            proof {
                assert(stack.deep_view() =~= norm_segments(all.subrange(0, i + 1)).unwrap());
            }
        }
        i = i + 1;
    }
    proof {
        assert(all.subrange(0, n as int) =~= all);
    }
    let root = stack.len() == 0;
    Ok(ResolvedTarget { segments: stack, is_root: root })
}

} // verus!

