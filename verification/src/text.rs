//! Character-level string operations that the router and the configuration
//! loader share: splitting on a separator, joining with `/`, locating the
//! last occurrence of a character, and a total lexicographic order.

use vstd::prelude::*;
use vstd::string::StrSliceExecFns;
use vstd::string::StringExecFns;
use vstd::utf8::char_u32_cast;

verus! {

/// The characters of each string in a sequence of strings.
pub open spec fn strs_view(v: Seq<String>) -> Seq<Seq<char>> {
    v.map_values(|s: String| s@)
}

pub open spec fn seq_contains_char(s: Seq<char>, c: char) -> bool {
    exists|i: int| 0 <= i < s.len() && s[i] == c
}

/// Splitting on a separator keeps empty pieces, so the result is never empty:
/// splitting the empty string gives one empty piece.
pub open spec fn spec_split(s: Seq<char>, sep: char) -> Seq<Seq<char>>
    decreases s.len(),
{
    if s.len() == 0 {
        seq![Seq::<char>::empty()]
    } else if s[0] == sep {
        seq![Seq::<char>::empty()] + spec_split(s.drop_first(), sep)
    } else {
        let rest = spec_split(s.drop_first(), sep);
        seq![seq![s[0]] + rest[0]] + rest.drop_first()
    }
}

pub proof fn lemma_split_len(s: Seq<char>, sep: char)
    ensures
        spec_split(s, sep).len() >= 1,
    decreases s.len(),
{
    if s.len() != 0 {
        lemma_split_len(s.drop_first(), sep);
    }
}

/// A string without the separator splits into itself alone.
pub proof fn lemma_split_no_sep(s: Seq<char>, sep: char)
    requires
        !seq_contains_char(s, sep),
    ensures
        spec_split(s, sep) =~~= seq![s],
    decreases s.len(),
{
    if s.len() == 0 {
        assert(spec_split(s, sep) =~~= seq![s]);
    } else {
        assert(s[0] != sep);
        assert(forall|i: int| 0 <= i < s.drop_first().len() ==> s.drop_first()[i] == s[i + 1]);
        assert(!seq_contains_char(s.drop_first(), sep));
        lemma_split_no_sep(s.drop_first(), sep);
        assert(seq![s[0]] + s.drop_first() =~= s);
        assert(spec_split(s, sep) =~~= seq![s]);
    }
}

/// Splitting at the first separator: the part before it is one piece, and the
/// rest splits on its own.
pub proof fn lemma_split_at_first(s: Seq<char>, sep: char, j: int)
    requires
        0 <= j < s.len(),
        s[j] == sep,
        forall|k: int| 0 <= k < j ==> s[k] != sep,
    ensures
        spec_split(s, sep) =~~= seq![s.take(j)] + spec_split(s.skip(j + 1), sep),
    decreases j,
{
    if j == 0 {
        assert(s.take(0) =~= Seq::<char>::empty());
        assert(s.skip(1) =~= s.drop_first());
    } else {
        assert(s[0] != sep);
        let d = s.drop_first();
        assert(d[j - 1] == sep);
        assert(forall|k: int| 0 <= k < j - 1 ==> d[k] == s[k + 1] && d[k] != sep);
        lemma_split_at_first(d, sep, j - 1);
        lemma_split_len(d.skip(j), sep);
        assert(d.take(j - 1) =~= s.take(j).drop_first());
        assert(d.skip(j) =~= s.skip(j + 1));
        assert(seq![s[0]] + s.take(j).drop_first() =~= s.take(j));
    }
}

/// Index of the first occurrence of `sep` in `s`, if any.
pub fn find_char(s: &str, sep: char) -> (r: Option<usize>)
    ensures
        match r {
            Some(j) => j < s@.len() && s@[j as int] == sep && (forall|k: int|
                0 <= k < j ==> s@[k] != sep),
            None => !seq_contains_char(s@, sep),
        },
{
    let n = s.unicode_len();
    let mut i: usize = 0;
    while i < n
        invariant
            n == s@.len(),
            i <= n,
            forall|k: int| 0 <= k < i ==> s@[k] != sep,
        decreases n - i,
    {
        if s.get_char(i) == sep {
            return Some(i);
        }
        i += 1;
    }
    None
}

/// Splits `s` on `sep`, keeping empty pieces.
pub fn split_on(s: &str, sep: char) -> (r: Vec<String>)
    ensures
        strs_view(r@) == spec_split(s@, sep),
    decreases s@.len(),
{
    match find_char(s, sep) {
        None => {
            let mut r: Vec<String> = Vec::new();
            r.push(s.to_owned());
            proof {
                lemma_split_no_sep(s@, sep);
                assert(strs_view(r@) =~~= spec_split(s@, sep));
            }
            r
        },
        Some(j) => {
            let n = s.unicode_len();
            let head = s.substring_char(0, j).to_owned();
            let tail = s.substring_char(j + 1, n);
            let mut r = split_on(tail, sep);
            r.insert(0, head);
            proof {
                lemma_split_at_first(s@, sep, j as int);
                assert(s@.subrange(0, j as int) =~= s@.take(j as int));
                assert(tail@ =~= s@.skip(j + 1));
                assert(strs_view(r@) =~~= spec_split(s@, sep));
            }
            r
        },
    }
}

/// Joining pieces with a separator; the inverse direction of `spec_split`.
pub open spec fn spec_join(parts: Seq<Seq<char>>, sep: char) -> Seq<char>
    decreases parts.len(),
{
    if parts.len() == 0 {
        Seq::empty()
    } else if parts.len() == 1 {
        parts[0]
    } else {
        parts[0] + seq![sep] + spec_join(parts.drop_first(), sep)
    }
}

fn join_slash_from(parts: &Vec<String>, i: usize) -> (r: String)
    requires
        i <= parts@.len(),
    ensures
        r@ == spec_join(strs_view(parts@.skip(i as int)), '/'),
    decreases parts@.len() - i,
{
    if i == parts.len() {
        let r = String::new();
        proof {
            assert(strs_view(parts@.skip(i as int)) =~~= Seq::<Seq<char>>::empty());
        }
        r
    } else if i + 1 == parts.len() {
        let r = parts[i].clone();
        proof {
            assert(strs_view(parts@.skip(i as int)).len() == 1);
            assert(strs_view(parts@.skip(i as int))[0] == parts@[i as int]@);
        }
        r
    } else {
        let rest = join_slash_from(parts, i + 1);
        let mut out = parts[i].clone();
        out.append("/");
        out.append(rest.as_str());
        proof {
            reveal_strlit("/");
            assert("/"@ =~= seq!['/']);
            let tail = strs_view(parts@.skip(i as int));
            assert(tail.len() >= 2);
            assert(tail[0] == parts@[i as int]@);
            assert(tail.drop_first() =~~= strs_view(parts@.skip(i + 1)));
            assert(out@ == spec_join(tail, '/'));
        }
        out
    }
}

/// Joins the pieces with `/` between them.
pub fn join_slash(parts: &Vec<String>) -> (r: String)
    ensures
        r@ == spec_join(strs_view(parts@), '/'),
{
    let r = join_slash_from(parts, 0);
    proof {
        assert(parts@.skip(0) =~= parts@);
    }
    r
}

/// Index of the last occurrence of `c` in `s`, or `-1` if there is none.
pub open spec fn spec_last_index(s: Seq<char>, c: char) -> int
    decreases s.len(),
{
    if s.len() == 0 {
        -1
    } else if s.last() == c {
        s.len() - 1
    } else {
        spec_last_index(s.drop_last(), c)
    }
}

pub proof fn lemma_last_index_props(s: Seq<char>, c: char)
    ensures
        -1 <= spec_last_index(s, c) < s.len(),
        spec_last_index(s, c) >= 0 ==> s[spec_last_index(s, c)] == c,
        forall|k: int| spec_last_index(s, c) < k < s.len() ==> s[k] != c,
    decreases s.len(),
{
    if s.len() != 0 && s.last() != c {
        lemma_last_index_props(s.drop_last(), c);
        assert(forall|k: int|
            0 <= k < s.len() - 1 ==> s[k] == s.drop_last()[k]);
    }
}

/// Index of the last occurrence of `c` in `s`, if any.
pub fn rfind_char(s: &str, c: char) -> (r: Option<usize>)
    ensures
        match r {
            Some(j) => j as int == spec_last_index(s@, c),
            None => spec_last_index(s@, c) == -1,
        },
{
    let n = s.unicode_len();
    let mut i: usize = n;
    proof {
        assert(s@.take(n as int) =~= s@);
    }
    while i > 0
        invariant
            n == s@.len(),
            i <= n,
            spec_last_index(s@, c) == spec_last_index(s@.take(i as int), c),
        decreases i,
    {
        let j = i - 1;
        if s.get_char(j) == c {
            proof {
                assert(s@.take(i as int).last() == s@[j as int]);
            }
            return Some(j);
        }
        proof {
            assert(s@.take(i as int).drop_last() =~= s@.take(j as int));
        }
        i = j;
    }
    proof {
        assert(s@.take(0) =~= Seq::<char>::empty());
    }
    None
}

/// Total lexicographic order on character sequences, by code point.
pub open spec fn lex_le(a: Seq<char>, b: Seq<char>) -> bool
    decreases a.len(),
{
    if a.len() == 0 {
        true
    } else if b.len() == 0 {
        false
    } else if a[0] == b[0] {
        lex_le(a.drop_first(), b.drop_first())
    } else {
        (a[0] as u32) < (b[0] as u32)
    }
}

pub proof fn lemma_lex_le_total(a: Seq<char>, b: Seq<char>)
    ensures
        lex_le(a, b) || lex_le(b, a),
    decreases a.len(),
{
    if a.len() != 0 && b.len() != 0 {
        if a[0] == b[0] {
            lemma_lex_le_total(a.drop_first(), b.drop_first());
        } else {
            char_u32_cast(a[0], a[0] as u32);
            char_u32_cast(b[0], b[0] as u32);
            assert(a[0] as u32 != b[0] as u32);
        }
    }
}

pub proof fn lemma_lex_le_trans(a: Seq<char>, b: Seq<char>, c: Seq<char>)
    requires
        lex_le(a, b),
        lex_le(b, c),
    ensures
        lex_le(a, c),
    decreases a.len(),
{
    if a.len() != 0 && b.len() != 0 && c.len() != 0 && a[0] == b[0] && b[0] == c[0] {
        lemma_lex_le_trans(a.drop_first(), b.drop_first(), c.drop_first());
    }
}

/// Compares two strings in the order of `lex_le`.
pub fn str_le(a: &str, b: &str) -> (r: bool)
    ensures
        r == lex_le(a@, b@),
{
    let na = a.unicode_len();
    let nb = b.unicode_len();
    let mut i: usize = 0;
    proof {
        assert(a@.skip(0) =~= a@);
        assert(b@.skip(0) =~= b@);
    }
    loop
        invariant
            na == a@.len(),
            nb == b@.len(),
            i <= na,
            i <= nb,
            lex_le(a@, b@) == lex_le(a@.skip(i as int), b@.skip(i as int)),
        decreases na - i,
    {
        if i == na {
            return true;
        }
        if i == nb {
            return false;
        }
        let ca = a.get_char(i);
        let cb = b.get_char(i);
        if ca != cb {
            return (ca as u32) < (cb as u32);
        }
        proof {
            assert(a@.skip(i as int).drop_first() =~= a@.skip(i + 1));
            assert(b@.skip(i as int).drop_first() =~= b@.skip(i + 1));
        }
        i += 1;
    }
}

} // verus!
