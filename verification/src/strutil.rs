//! Character-sequence helpers: splitting, joining, title-casing and
//! lexicographic ordering.

use vstd::prelude::*;
use vstd::string::StrSliceExecFns;

verus! {

/// The uppercase mapping of one character, which depends on the character
/// alone.
pub uninterp spec fn upper_of(c: char) -> Seq<char>;

/// Relies on char::to_uppercase: yields the uppercase mapping of the
/// character as one or more characters.
#[verifier::external_body]
fn char_upper(c: char) -> (r: Vec<char>)
    ensures
        r@ == upper_of(c),
        r@.len() >= 1,
{
    c.to_uppercase().collect()
}

/// Relies on String::from_iter: collecting characters yields a string of
/// exactly those characters.
#[verifier::external_body]
fn chars_to_string(cs: &Vec<char>) -> (r: String)
    ensures
        r@ == cs@,
{
    cs.iter().collect()
}

/// True when the string slice and the owned string hold the same characters.
pub fn str_eq(a: &String, b: &str) -> (r: bool)
    ensures
        r == (a@ == b@),
{
    let bs: String = b.to_owned();
    *a == bs
}

/// The pieces of `s` between occurrences of `sep`: always at least one
/// piece, and empty pieces where separators touch.
pub open spec fn split_on(s: Seq<char>, sep: char) -> Seq<Seq<char>>
    decreases s.len(),
{
    if s.len() == 0 {
        seq![Seq::empty()]
    } else if s.last() == sep {
        split_on(s.drop_last(), sep).push(Seq::empty())
    } else {
        let r = split_on(s.drop_last(), sep);
        r.update(r.len() - 1, r.last().push(s.last()))
    }
}

pub proof fn lemma_split_nonempty(s: Seq<char>, sep: char)
    ensures
        split_on(s, sep).len() >= 1,
    decreases s.len(),
{
    if s.len() > 0 {
        lemma_split_nonempty(s.drop_last(), sep);
    }
}

/// Splits a string at every occurrence of `sep`.
pub fn split_char(s: &str, sep: char) -> (r: Vec<String>)
    ensures
        r.deep_view() == split_on(s@, sep),
        r.len() >= 1,
{
    let n = s.unicode_len();
    let mut out: Vec<String> = Vec::new();
    let mut ws: usize = 0;
    let mut i: usize = 0;
    proof {
        assert(s@.subrange(0, 0) =~= Seq::<char>::empty());
        assert(out.deep_view().push(s@.subrange(0, 0)) =~= seq![Seq::<char>::empty()]);
    }
    while i < n
        invariant
            ws <= i <= n == s@.len(),
            split_on(s@.subrange(0, i as int), sep) == out.deep_view().push(
                s@.subrange(ws as int, i as int),
            ),
        decreases n - i,
    {
        let c = s.get_char(i);
        proof {
            lemma_split_nonempty(s@.subrange(0, i as int), sep);
            assert(s@.subrange(0, i as int + 1).drop_last() =~= s@.subrange(0, i as int));
            assert(s@.subrange(0, i as int + 1).last() == s@[i as int]);
        }
        let ghost pre_out = out.deep_view();
        let ghost ws0 = ws as int;
        if c == sep {
            out.push(s.substring_char(ws, i).to_owned());
            ws = i + 1;
            proof {
                assert(out.deep_view() =~= pre_out.push(s@.subrange(ws0, i as int)));
                assert(s@.subrange(ws as int, i as int + 1) =~= Seq::<char>::empty());
            }
        } else {
            proof {
                let r = split_on(s@.subrange(0, i as int), sep);
                assert(r.update(r.len() - 1, r.last().push(s@[i as int])) =~= out.deep_view().push(
                    s@.subrange(ws as int, i as int).push(s@[i as int]),
                ));
                assert(s@.subrange(ws as int, i as int + 1) =~= s@.subrange(
                    ws as int,
                    i as int,
                ).push(s@[i as int]));
            }
        }
        i = i + 1;
    }
    proof {
        assert(s@.subrange(0, n as int) =~= s@);
    }
    let ghost pre_out = out.deep_view();
    out.push(s.substring_char(ws, n).to_owned());
    proof {
        assert(out.deep_view() =~= pre_out.push(s@.subrange(ws as int, n as int)));
    }
    out
}

/// A word with its first character mapped to uppercase.
pub open spec fn title_word(w: Seq<char>) -> Seq<char> {
    if w.len() == 0 {
        w
    } else {
        upper_of(w[0]) + w.subrange(1, w.len() as int)
    }
}

/// Words joined with single spaces.
pub open spec fn join_space(ws: Seq<Seq<char>>) -> Seq<char>
    decreases ws.len(),
{
    if ws.len() == 0 {
        Seq::empty()
    } else if ws.len() == 1 {
        ws[0]
    } else {
        join_space(ws.drop_last()) + seq![' '] + ws.last()
    }
}

/// The display name defaulted from a key: hyphens become spaces and every
/// word starts uppercase.
pub open spec fn title_of(key: Seq<char>) -> Seq<char> {
    join_space(split_on(key, '-').map(|i: int, w: Seq<char>| title_word(w)))
}

/// Renders a key as a display name, word by word.
pub fn key_to_name(key: &str) -> (r: String)
    ensures
        r@ == title_of(key@),
{
    let words = split_char(key, '-');
    let ghost mapped = split_on(key@, '-').map(|i: int, w: Seq<char>| title_word(w));
    let mut out = String::new();
    let mut i: usize = 0;
    while i < words.len()
        invariant
            i <= words.len(),
            words.deep_view() == split_on(key@, '-'),
            out@ == join_space(mapped.subrange(0, i as int)),
            mapped == split_on(key@, '-').map(|i: int, w: Seq<char>| title_word(w)),
        decreases words.len() - i,
    {
        let w = &words[i];
        if i > 0 {
            out.append(" ");
        }
        proof {
            reveal_strlit(" ");
            assert(" "@ =~= seq![' ']);
            assert(mapped.subrange(0, i as int + 1).drop_last() =~= mapped.subrange(0, i as int));
            assert(mapped.subrange(0, i as int + 1).last() == title_word(words@[i as int]@));
        }
        let wlen = w.as_str().unicode_len();
        if wlen > 0 {
            let c = w.as_str().get_char(0);
            let up = char_upper(c);
            let ups = chars_to_string(&up);
            out.append(ups.as_str());
            let rest = w.as_str().substring_char(1, wlen);
            out.append(rest);
            proof {
                assert(w@.subrange(1, w@.len() as int) == rest@);
                assert(out@ =~= join_space(mapped.subrange(0, i as int + 1)));
            }
        } else {
            proof {
                assert(title_word(words@[i as int]@) =~= Seq::<char>::empty());
                assert(out@ =~= join_space(mapped.subrange(0, i as int + 1)));
            }
        }
        i = i + 1;
    }
    proof {
        assert(mapped.subrange(0, mapped.len() as int) =~= mapped);
    }
    out
}

/// Strict lexicographic order on character sequences, by code point.
pub open spec fn lex_lt(a: Seq<char>, b: Seq<char>) -> bool
    decreases a.len(),
{
    if b.len() == 0 {
        false
    } else if a.len() == 0 {
        true
    } else if a[0] == b[0] {
        lex_lt(a.drop_first(), b.drop_first())
    } else {
        (a[0] as u32) < (b[0] as u32)
    }
}

/// Two characters with the same code point are the same character.
proof fn lemma_char_code_eq(c1: char, c2: char)
    ensures
        c1 as u32 == c2 as u32 ==> c1 == c2,
{
    assert(c1 as int == c1 as u32 as int);
    assert(c2 as int == c2 as u32 as int);
}

/// Of two distinct character sequences, one is lexicographically smaller.
pub proof fn lemma_lex_total(a: Seq<char>, b: Seq<char>)
    ensures
        lex_lt(a, b) || lex_lt(b, a) || a == b,
    decreases a.len(),
{
    if b.len() == 0 || a.len() == 0 {
        if a.len() == b.len() {
            assert(a =~= b);
        }
    } else if a[0] == b[0] {
        lemma_lex_total(a.drop_first(), b.drop_first());
        if a.drop_first() == b.drop_first() {
            assert(a.drop_first().len() == a.len() - 1);
            assert(b.drop_first().len() == b.len() - 1);
            assert(a.len() == b.len());
            assert forall|k: int| 0 <= k < a.len() implies a[k] == b[k] by {
                if k > 0 {
                    assert(a.drop_first()[k - 1] == b.drop_first()[k - 1]);
                }
            }
            assert(a =~= b);
        }
    } else {
        lemma_char_code_eq(a[0], b[0]);
    }
}

/// No character sequence is lexicographically smaller than itself.
pub proof fn lemma_lex_irrefl(a: Seq<char>)
    ensures
        !lex_lt(a, a),
    decreases a.len(),
{
    if a.len() > 0 {
        lemma_lex_irrefl(a.drop_first());
    }
}

/// Lexicographic order is transitive.
pub proof fn lemma_lex_trans(a: Seq<char>, b: Seq<char>, c: Seq<char>)
    requires
        lex_lt(a, b),
        lex_lt(b, c),
    ensures
        lex_lt(a, c),
    decreases a.len(),
{
    if c.len() == 0 || b.len() == 0 {
    } else if a.len() == 0 {
    } else if a[0] == b[0] && b[0] == c[0] {
        lemma_lex_trans(a.drop_first(), b.drop_first(), c.drop_first());
    } else {
        lemma_char_code_eq(a[0], b[0]);
        lemma_char_code_eq(b[0], c[0]);
        lemma_char_code_eq(a[0], c[0]);
    }
}

/// Compares two strings lexicographically by code point.
pub fn str_lt(a: &String, b: &String) -> (r: bool)
    ensures
        r == lex_lt(a@, b@),
{
    let alen = a.as_str().unicode_len();
    let blen = b.as_str().unicode_len();
    let mut i: usize = 0;
    proof {
        assert(a@.skip(0) =~= a@);
        assert(b@.skip(0) =~= b@);
    }
    loop
        invariant
            i <= alen,
            i <= blen,
            alen == a@.len(),
            blen == b@.len(),
            lex_lt(a@, b@) == lex_lt(a@.skip(i as int), b@.skip(i as int)),
        decreases alen - i,
    {
        if i >= blen {
            proof {
                assert(b@.skip(i as int) =~= Seq::<char>::empty());
            }
            return false;
        }
        if i >= alen {
            proof {
                assert(a@.skip(i as int) =~= Seq::<char>::empty());
                assert(b@.skip(i as int).len() > 0);
            }
            return true;
        }
        let ca = a.as_str().get_char(i);
        let cb = b.as_str().get_char(i);
        proof {
            assert(a@.skip(i as int)[0] == a@[i as int]);
            assert(b@.skip(i as int)[0] == b@[i as int]);
            assert(a@.skip(i as int).drop_first() =~= a@.skip(i as int + 1));
            assert(b@.skip(i as int).drop_first() =~= b@.skip(i as int + 1));
        }
        if ca != cb {
            return (ca as u32) < (cb as u32);
        }
        i = i + 1;
    }
}

} // verus!
