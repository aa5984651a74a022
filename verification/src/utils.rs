//! Small numeric helpers shared by the engine.

use vstd::prelude::*;

verus! {

/// Clamps `x` into the inclusive range `[lo, hi]`.
pub open spec fn clamp_int(x: int, lo: int, hi: int) -> int {
    if x < lo {
        lo
    } else if x > hi {
        hi
    } else {
        x
    }
}

/// Clamps a wide intermediate result into the `i32` range; never wraps.
pub fn clamp_to_i32(x: i64) -> (r: i32)
    ensures
        r as int == clamp_int(x as int, i32::MIN as int, i32::MAX as int),
{
    if x < i32::MIN as i64 {
        i32::MIN
    } else if x > i32::MAX as i64 {
        i32::MAX
    } else {
        x as i32
    }
}

/// The index of the last occurrence of a character, or `-1` for none.
pub open spec fn last_index_of(s: Seq<char>, c: char) -> int
    decreases s.len(),
{
    if s.len() == 0 {
        -1
    } else if s.last() == c {
        s.len() - 1
    } else {
        last_index_of(s.drop_last(), c)
    }
}

/// What `last_index_of` returns: the last occurrence, or `-1` for none.
pub proof fn lemma_last_index_of(s: Seq<char>, c: char)
    ensures
        -1 <= last_index_of(s, c) < s.len(),
        last_index_of(s, c) == -1 ==> forall|x: int| 0 <= x < s.len() ==> (#[trigger] s[x]) != c,
        last_index_of(s, c) >= 0 ==> {
            &&& last_index_of(s, c) < s.len()
            &&& s[last_index_of(s, c)] == c
            &&& forall|x: int| last_index_of(s, c) < x < s.len() ==> (#[trigger] s[x]) != c
        },
    decreases s.len(),
{
    if s.len() > 0 && s.last() != c {
        lemma_last_index_of(s.drop_last(), c);
        assert forall|x: int| 0 <= x < s.len() - 1 implies s.drop_last()[x] == s[x] by {}
    }
}


/// The index of the last occurrence of a character in a string, if any.
pub fn find_last_char(s: &str, c: char) -> (r: Option<usize>)
    ensures
        match r {
            Some(k) => k < s@.len() && k as int == last_index_of(s@, c),
            None => last_index_of(s@, c) == -1,
        },
{
    let n = s.unicode_len();
    let mut found: Option<usize> = None;
    let mut i: usize = 0;
    while i < n
        invariant
            n == s@.len(),
            i <= n,
            match found {
                Some(k) => {
                    &&& k < i
                    &&& s@[k as int] == c
                    &&& forall|x: int| k < x < i ==> (#[trigger] s@[x]) != c
                },
                None => forall|x: int| 0 <= x < i ==> (#[trigger] s@[x]) != c,
            },
        decreases n - i,
    {
        if s.get_char(i) == c {
            found = Some(i);
        }
        i = i + 1;
    }
    proof {
        lemma_last_index_of(s@, c);
        let r = last_index_of(s@, c);
        match found {
            Some(k) => {
                assert(s@[k as int] == c);
                if r == -1 {
                    assert((s@[k as int]) != c);
                    assert(false);
                } else {
                    assert(s@[r] == c);
                    if r < k as int {
                        assert((s@[k as int]) != c);
                        assert(false);
                    }
                    if r > k as int {
                        assert((s@[r]) != c) by {
                            assert((k as int) < r && r < (i as int));
                        }
                        assert(false);
                    }
                }
                assert(r == k as int);
            },
            None => {
                if r >= 0 {
                    assert(s@[r] == c);
                    assert((s@[r]) != c) by {
                        assert(0 <= r < i as int);
                    }
                    assert(false);
                }
                assert(r == -1);
            },
        }
    }
    found
}

/// A path with its trailing separators removed, down to a lone root.
pub open spec fn strip_trailing_separators(s: Seq<char>) -> Seq<char>
    decreases s.len(),
{
    if s.len() > 1 && s.last() == '/' {
        strip_trailing_separators(s.drop_last())
    } else {
        s
    }
}

/// The parent of a path: what comes before the last separator, once
/// trailing separators are dropped; the root for a top-level entry; the
/// empty path for a bare name; nothing for the root itself or the empty
/// path.
pub open spec fn parent_path(s: Seq<char>) -> Option<Seq<char>> {
    let t = strip_trailing_separators(s);
    if t.len() == 0 || (t.len() == 1 && t[0] == '/') {
        None
    } else {
        let k = last_index_of(t, '/');
        if k == -1 {
            Some(Seq::empty())
        } else if k == 0 {
            Some(seq!['/'])
        } else {
            Some(t.take(k))
        }
    }
}

/// Returns whether `l` is the parent directory of `r`.
pub fn is_parent_path(l: &String, r: &String) -> (res: bool)
    ensures
        res == (parent_path(r@) matches Some(p) && p == l@),
{
    let n = r.as_str().unicode_len();
    let mut end = n;
    proof {
        assert(r@.subrange(0, n as int) =~= r@);
    }
    while end > 1 && r.as_str().get_char(end - 1) == '/'
        invariant
            n == r@.len(),
            end <= n,
            end > 0 || n == 0,
            strip_trailing_separators(r@) == strip_trailing_separators(
                r@.subrange(0, end as int),
            ),
        decreases end,
    {
        proof {
            assert(r@.subrange(0, end as int).drop_last() =~= r@.subrange(0, end - 1));
        }
        end = end - 1;
    }
    let t = r.as_str().substring_char(0, end);
    proof {
        assert(t@ == strip_trailing_separators(r@)) by {
            assert(t@ == r@.subrange(0, end as int));
        }
    }
    let m = t.unicode_len();
    if m == 0 {
        return false;
    }
    let slash = find_last_char(t, '/');
    proof {
        lemma_last_index_of(t@, '/');
    }
    match slash {
        None => {
            let res = l.as_str().is_empty();
            proof {
                assert(parent_path(r@) == Some(Seq::<char>::empty()));
                if res {
                    assert(l@ =~= Seq::<char>::empty());
                }
                if l@ == Seq::<char>::empty() {
                    assert(l@.len() == 0);
                }
            }
            res
        },
        Some(k) => {
            if k == 0 {
                proof {
                    assert(t@[0] == '/');
                }
                if m == 1 {
                    return false;
                }
                let res = l.as_str().unicode_len() == 1 && l.as_str().get_char(0) == '/';
                proof {
                    assert(parent_path(r@) == Some(seq!['/']));
                    if res {
                        assert(l@ =~= seq!['/']);
                    } else {
                        if l@ == seq!['/'] {
                            assert(l@.len() == 1 && l@[0] == '/');
                        }
                    }
                }
                res
            } else {
                let sub = t.substring_char(0, k);
                proof {
                    assert(sub@ == t@.take(k as int));
                    assert(parent_path(r@) == Some(t@.take(k as int)));
                }
                String::from_str(sub) == *l
            }
        },
    }
}

} // verus!
