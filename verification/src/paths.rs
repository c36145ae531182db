//! Slash-separated path strings: base names, stems and extensions.

use vstd::prelude::*;
use vstd::string::StrSliceExecFns;

verus! {

/// The index of the last occurrence of `c` in `s`.
pub open spec fn rfind(s: Seq<char>, c: char) -> Option<int>
    decreases s.len(),
{
    if s.len() == 0 {
        None
    } else if s.last() == c {
        Some(s.len() - 1)
    } else {
        rfind(s.drop_last(), c)
    }
}

/// Finds the last occurrence of `c` in `s`.
pub fn rfind_char(s: &str, c: char) -> (r: Option<usize>)
    ensures
        r is Some <==> rfind(s@, c) is Some,
        r is Some ==> rfind(s@, c) == Some(r->Some_0 as int) && r->Some_0 < s@.len(),
{
    let n = s.unicode_len();
    let mut i: usize = n;
    proof {
        assert(s@.subrange(0, n as int) =~= s@);
    }
    while i > 0
        invariant
            i <= n == s@.len(),
            rfind(s@, c) == rfind(s@.subrange(0, i as int), c),
        decreases i,
    {
        let ch = s.get_char(i - 1);
        proof {
            assert(s@.subrange(0, i as int).last() == s@[i as int - 1]);
            assert(s@.subrange(0, i as int).drop_last() =~= s@.subrange(0, i as int - 1));
        }
        if ch == c {
            return Some(i - 1);
        }
        i = i - 1;
    }
    proof {
        assert(s@.subrange(0, 0) =~= Seq::<char>::empty());
    }
    None
}

/// Where the base name of a path starts: just after its last slash.
pub open spec fn base_start(s: Seq<char>) -> int {
    match rfind(s, '/') {
        Some(i) => i + 1,
        None => 0,
    }
}

/// The stem of a path: its base name up to the last dot, where a dot
/// stands after the base name's first character; else the whole base name.
pub open spec fn stem_of(s: Seq<char>) -> Seq<char> {
    let bs = base_start(s);
    match rfind(s, '.') {
        Some(d) => if d > bs {
            s.subrange(bs, d)
        } else {
            s.subrange(bs, s.len() as int)
        },
        None => s.subrange(bs, s.len() as int),
    }
}

/// The whole path with the base name's extension removed, where one is
/// there.
pub open spec fn drop_ext_of(s: Seq<char>) -> Seq<char> {
    let bs = base_start(s);
    match rfind(s, '.') {
        Some(d) => if d > bs {
            s.subrange(0, d)
        } else {
            s
        },
        None => s,
    }
}

/// The stem of a path string.
pub fn file_stem(s: &str) -> (r: String)
    ensures
        r@ == stem_of(s@),
{
    let n = s.unicode_len();
    let bs = match rfind_char(s, '/') {
        Some(i) => i + 1,
        None => 0,
    };
    match rfind_char(s, '.') {
        Some(d) => {
            if d > bs {
                s.substring_char(bs, d).to_owned()
            } else {
                s.substring_char(bs, n).to_owned()
            }
        },
        None => s.substring_char(bs, n).to_owned(),
    }
}

/// A path with its extension removed.
pub fn drop_ext(s: &str) -> (r: String)
    ensures
        r@ == drop_ext_of(s@),
{
    let n = s.unicode_len();
    let bs = match rfind_char(s, '/') {
        Some(i) => i + 1,
        None => 0,
    };
    match rfind_char(s, '.') {
        Some(d) => {
            if d > bs {
                s.substring_char(0, d).to_owned()
            } else {
                proof {
                    assert(s@.subrange(0, n as int) =~= s@);
                }
                s.substring_char(0, n).to_owned()
            }
        },
        None => {
            proof {
                assert(s@.subrange(0, n as int) =~= s@);
            }
            s.substring_char(0, n).to_owned()
        },
    }
}

} // verus!
