//! Character-level utilities: digit classification and values, whitespace
//! trimming, and splitting a character sequence on a separator. These back
//! the field parsers and the table tokenizer.

use vstd::prelude::*;

verus! {

// ---------------------------------------------------------------------------
// characters
// ---------------------------------------------------------------------------

/// An ASCII decimal digit.
pub open spec fn is_digit(c: char) -> bool {
    48 <= c as u32 && c as u32 <= 57
}

/// Numeric value of an ASCII decimal digit.
pub open spec fn digit_val(c: char) -> int {
    c as u32 - 48
}

/// ASCII whitespace, the characters removed by trimming.
pub open spec fn is_space(c: char) -> bool {
    c == ' ' || c == '\t' || c == '\n' || c == '\r' || c as u32 == 11 || c as u32 == 12
}

pub open spec fn all_digits(s: Seq<char>) -> bool {
    forall|i: int| 0 <= i < s.len() ==> is_digit(#[trigger] s[i])
}

/// Value of a digit string read in base 10, most significant digit first.
pub open spec fn digits_val(s: Seq<char>) -> int
    decreases s.len(),
{
    if s.len() == 0 {
        0
    } else {
        10 * digits_val(s.drop_last()) + digit_val(s.last())
    }
}

pub fn char_is_digit(c: char) -> (r: bool)
    ensures
        r == is_digit(c),
{
    let u: u32 = c as u32;
    48 <= u && u <= 57
}

pub fn char_is_space(c: char) -> (r: bool)
    ensures
        r == is_space(c),
{
    let u: u32 = c as u32;
    c == ' ' || c == '\t' || c == '\n' || c == '\r' || u == 11 || u == 12
}

/// A digit string never shrinks in value when extended on the right.
pub proof fn lemma_digits_val_prefix(s: Seq<char>, i: int)
    requires
        all_digits(s),
        0 <= i <= s.len(),
    ensures
        digits_val(s.subrange(0, i)) <= digits_val(s),
        digits_val(s) >= 0,
    decreases s.len(),
{
    if s.len() == 0 {
        assert(s.subrange(0, i) =~= s);
    } else {
        assert(all_digits(s.drop_last()));
        lemma_digits_val_prefix(s.drop_last(), if i <= s.len() - 1 { i } else { s.len() - 1 });
        if i <= s.len() - 1 {
            assert(s.subrange(0, i) =~= s.drop_last().subrange(0, i));
        } else {
            assert(s.subrange(0, i) =~= s);
        }
        assert(digit_val(s.last()) >= 0);
    }
}

// ---------------------------------------------------------------------------
// trimming
// ---------------------------------------------------------------------------

pub open spec fn trim_front(s: Seq<char>) -> Seq<char>
    decreases s.len(),
{
    if s.len() > 0 && is_space(s[0]) {
        trim_front(s.drop_first())
    } else {
        s
    }
}

pub open spec fn trim_back(s: Seq<char>) -> Seq<char>
    decreases s.len(),
{
    if s.len() > 0 && is_space(s.last()) {
        trim_back(s.drop_last())
    } else {
        s
    }
}

/// Whitespace trimmed from both ends.
pub open spec fn trim(s: Seq<char>) -> Seq<char> {
    trim_back(trim_front(s))
}

/// Remove leading and trailing whitespace from a character vector.
pub fn trim_chars(v: &Vec<char>) -> (r: Vec<char>)
    ensures
        r@ == trim(v@),
{
    let n: usize = v.len();
    proof {
        assert(v@.subrange(0, n as int) =~= v@);
    }
    let mut a: usize = 0;
    while a < n && char_is_space(v[a])
        invariant
            0 <= a <= n,
            n == v@.len(),
            trim_front(v@) == trim_front(v@.subrange(a as int, n as int)),
        decreases n - a,
    {
        proof {
            let t = v@.subrange(a as int, n as int);
            assert(t.drop_first() =~= v@.subrange(a as int + 1, n as int));
        }
        a += 1;
    }
    proof {
        let t = v@.subrange(a as int, n as int);
        if a < n {
            assert(t[0] == v@[a as int]);
        }
        assert(trim_front(v@) == t);
    }
    let mut b: usize = n;
    while b > a && char_is_space(v[b - 1])
        invariant
            a <= b <= n,
            n == v@.len(),
            trim_front(v@) == v@.subrange(a as int, n as int),
            trim_back(v@.subrange(a as int, n as int)) == trim_back(
                v@.subrange(a as int, b as int),
            ),
        decreases b,
    {
        proof {
            let t = v@.subrange(a as int, b as int);
            assert(t.last() == v@[b as int - 1]);
            assert(t.drop_last() =~= v@.subrange(a as int, b as int - 1));
        }
        b -= 1;
    }
    proof {
        let t = v@.subrange(a as int, b as int);
        if b > a {
            assert(t.last() == v@[b as int - 1]);
        }
        assert(trim_back(v@.subrange(a as int, n as int)) == t);
    }
    let mut out: Vec<char> = Vec::new();
    let mut j: usize = a;
    while j < b
        invariant
            a <= j <= b <= n,
            n == v@.len(),
            out@ == v@.subrange(a as int, j as int),
        decreases b - j,
    {
        out.push(v[j]);
        proof {
            assert(v@.subrange(a as int, j as int + 1) =~= v@.subrange(a as int, j as int).push(
                v@[j as int],
            ));
        }
        j += 1;
    }
    proof {
        assert(trim(v@) == v@.subrange(a as int, b as int));
    }
    out
}

// ---------------------------------------------------------------------------
// splitting on a separator character
// ---------------------------------------------------------------------------

/// Index of the first occurrence of `sep`, or -1 when absent.
pub open spec fn find_ch(s: Seq<char>, sep: char) -> int
    decreases s.len(),
{
    if s.len() == 0 {
        -1
    } else if s[0] == sep {
        0
    } else if find_ch(s.drop_first(), sep) < 0 {
        -1
    } else {
        1 + find_ch(s.drop_first(), sep)
    }
}

pub proof fn lemma_find_ch(s: Seq<char>, sep: char)
    ensures
        find_ch(s, sep) == -1 ==> forall|i: int| 0 <= i < s.len() ==> s[i] != sep,
        find_ch(s, sep) >= 0 ==> find_ch(s, sep) < s.len() && s[find_ch(s, sep)] == sep && forall|
            i: int,
        | 0 <= i < find_ch(s, sep) ==> s[i] != sep,
    decreases s.len(),
{
    if s.len() > 0 && s[0] != sep {
        let t = s.drop_first();
        lemma_find_ch(t, sep);
        assert(forall|i: int| 1 <= i < s.len() ==> s[i] == t[i - 1]);
        let j = find_ch(t, sep);
        if j == -1 {
            assert(forall|i: int| 0 <= i < s.len() ==> s[i] != sep) by {
                assert(forall|i: int| 1 <= i < s.len() ==> s[i] == t[i - 1] && t[i - 1] != sep);
            }
        } else {
            assert(find_ch(s, sep) == 1 + j);
            assert(s[1 + j] == t[j]);
            assert(forall|i: int| 0 <= i < 1 + j ==> s[i] != sep) by {
                assert(forall|i: int| 1 <= i < 1 + j ==> s[i] == t[i - 1] && t[i - 1] != sep);
            }
        }
    }
}

/// The pieces of `s` between occurrences of `sep`; always at least one piece.
pub open spec fn split_on(s: Seq<char>, sep: char) -> Seq<Seq<char>>
    decreases s.len(),
{
    let i = find_ch(s, sep);
    if i < 0 || i >= s.len() {
        seq![s]
    } else {
        seq![s.subrange(0, i)] + split_on(s.subrange(i + 1, s.len() as int), sep)
    }
}

pub proof fn lemma_split_on_len(s: Seq<char>, sep: char)
    ensures
        split_on(s, sep).len() >= 1,
    decreases s.len(),
{
    let i = find_ch(s, sep);
    if 0 <= i < s.len() {
        lemma_split_on_len(s.subrange(i + 1, s.len() as int), sep);
    }
}

/// Unfolding step: a leading separator contributes an empty piece.
pub proof fn lemma_split_on_sep(s: Seq<char>, sep: char)
    requires
        s.len() > 0,
        s[0] == sep,
    ensures
        split_on(s, sep) == seq![Seq::<char>::empty()] + split_on(s.drop_first(), sep),
{
    assert(find_ch(s, sep) == 0);
    assert(s.subrange(0, 0) =~= Seq::<char>::empty());
    assert(s.subrange(1, s.len() as int) =~= s.drop_first());
    assert(split_on(s, sep) =~= seq![Seq::<char>::empty()] + split_on(s.drop_first(), sep));
}

/// Unfolding step: a leading non-separator extends the first piece.
pub proof fn lemma_split_on_nosep(s: Seq<char>, sep: char)
    requires
        s.len() > 0,
        s[0] != sep,
    ensures
        split_on(s.drop_first(), sep).len() >= 1,
        split_on(s, sep) == seq![seq![s[0]] + split_on(s.drop_first(), sep)[0]] + split_on(
            s.drop_first(),
            sep,
        ).drop_first(),
{
    let t = s.drop_first();
    lemma_split_on_len(t, sep);
    let i = find_ch(s, sep);
    let j = find_ch(t, sep);
    assert(i == if j < 0 { -1int } else { 1 + j });
    lemma_find_ch(s, sep);
    lemma_find_ch(t, sep);
    if j < 0 || j >= t.len() {
        assert(split_on(t, sep) == seq![t]);
        assert(split_on(s, sep) == seq![s]);
        assert(seq![s[0]] + t =~= s);
        assert(seq![seq![s[0]] + split_on(t, sep)[0]] + split_on(t, sep).drop_first() =~= seq![s]);
    } else {
        assert(i == j + 1);
        assert(0 <= i < s.len());
        assert(split_on(s, sep) == seq![s.subrange(0, i)] + split_on(
            s.subrange(i + 1, s.len() as int),
            sep,
        ));
        assert(split_on(t, sep) == seq![t.subrange(0, j)] + split_on(
            t.subrange(j + 1, t.len() as int),
            sep,
        ));
        assert(s.subrange(i + 1, s.len() as int) =~= t.subrange(j + 1, t.len() as int));
        assert(seq![s[0]] + t.subrange(0, j) =~= s.subrange(0, i));
        assert((seq![t.subrange(0, j)] + split_on(t.subrange(j + 1, t.len() as int), sep))
            .drop_first() =~= split_on(t.subrange(j + 1, t.len() as int), sep));
        assert(seq![seq![s[0]] + split_on(t, sep)[0]] + split_on(t, sep).drop_first() =~= seq![
            s.subrange(0, i),
        ] + split_on(s.subrange(i + 1, s.len() as int), sep));
    }
}

/// Split a character vector on a separator; mirrors `split_on`.
pub fn split_chars(v: &Vec<char>, sep: char) -> (r: Vec<Vec<char>>)
    ensures
        r@.map_values(|t: Vec<char>| t@) == split_on(v@, sep),
{
    let n: usize = v.len();
    let mut out: Vec<Vec<char>> = Vec::new();
    let mut cur: Vec<char> = Vec::new();
    let mut i: usize = 0;
    proof {
        assert(v@.subrange(0, n as int) =~= v@);
        lemma_split_on_len(v@, sep);
        let tail = split_on(v@, sep);
        assert(out@.map_values(|t: Vec<char>| t@) + seq![cur@ + tail[0]] + tail.drop_first() =~= seq![
            tail[0],
        ] + tail.drop_first());
        assert(seq![tail[0]] + tail.drop_first() =~= tail);
    }
    while i < n
        invariant
            i <= n,
            n == v@.len(),
            split_on(v@.subrange(i as int, n as int), sep).len() >= 1,
            split_on(v@, sep) == out@.map_values(|t: Vec<char>| t@) + seq![
                cur@ + split_on(v@.subrange(i as int, n as int), sep)[0],
            ] + split_on(v@.subrange(i as int, n as int), sep).drop_first(),
        decreases n - i,
    {
        let c = v[i];
        proof {
            let s_i = v@.subrange(i as int, n as int);
            assert(s_i[0] == v@[i as int]);
            assert(s_i.drop_first() =~= v@.subrange(i as int + 1, n as int));
            lemma_split_on_len(s_i.drop_first(), sep);
        }
        if c == sep {
            proof {
                let s_i = v@.subrange(i as int, n as int);
                let t2 = split_on(s_i.drop_first(), sep);
                lemma_split_on_sep(s_i, sep);
                assert(split_on(s_i, sep)[0] =~= Seq::<char>::empty());
                assert(split_on(s_i, sep).drop_first() =~= t2);
                assert(cur@ + Seq::<char>::empty() =~= cur@);
                assert(out@.map_values(|t: Vec<char>| t@) + seq![cur@] + t2 =~= out@.push(
                    cur,
                ).map_values(|t: Vec<char>| t@) + t2);
                assert(t2 =~= seq![t2[0]] + t2.drop_first());
                assert(out@.push(cur).map_values(|t: Vec<char>| t@) + t2 =~= out@.push(
                    cur,
                ).map_values(|t: Vec<char>| t@) + seq![Seq::<char>::empty() + t2[0]]
                    + t2.drop_first());
            }
            out.push(cur);
            cur = Vec::new();
        } else {
            proof {
                let s_i = v@.subrange(i as int, n as int);
                let t2 = split_on(s_i.drop_first(), sep);
                lemma_split_on_nosep(s_i, sep);
                assert(split_on(s_i, sep)[0] == seq![c] + t2[0]);
                assert(split_on(s_i, sep).drop_first() =~= t2.drop_first());
                assert(cur@ + (seq![c] + t2[0]) =~= cur@.push(c) + t2[0]);
            }
            cur.push(c);
        }
        i += 1;
    }
    proof {
        let s_n = v@.subrange(n as int, n as int);
        assert(s_n =~= Seq::<char>::empty());
        assert(split_on(s_n, sep) == seq![Seq::<char>::empty()]);
        assert(cur@ + Seq::<char>::empty() =~= cur@);
        assert(split_on(v@, sep) =~= out@.map_values(|t: Vec<char>| t@) + seq![cur@]);
        assert(out@.push(cur).map_values(|t: Vec<char>| t@) =~= out@.map_values(|t: Vec<char>| t@)
            + seq![cur@]);
    }
    out.push(cur);
    out
}

/// `s` with every newline character removed.
pub open spec fn strip_nl(s: Seq<char>) -> Seq<char>
    decreases s.len(),
{
    if s.len() == 0 {
        s
    } else if s.last() == '\n' {
        strip_nl(s.drop_last())
    } else {
        strip_nl(s.drop_last()).push(s.last())
    }
}

/// Copy the characters of `s`, dropping newlines.
pub fn remove_newlines(s: &str) -> (r: Vec<char>)
    ensures
        r@ == strip_nl(s@),
{
    let n: usize = s.unicode_len();
    let mut out: Vec<char> = Vec::new();
    let mut i: usize = 0;
    proof {
        assert(s@.subrange(0, 0) =~= Seq::<char>::empty());
    }
    while i < n
        invariant
            i <= n,
            n == s@.len(),
            out@ == strip_nl(s@.subrange(0, i as int)),
        decreases n - i,
    {
        let c = s.get_char(i);
        proof {
            let p = s@.subrange(0, i as int + 1);
            assert(p.drop_last() =~= s@.subrange(0, i as int));
            assert(p.last() == s@[i as int]);
        }
        if c != '\n' {
            out.push(c);
        }
        i += 1;
    }
    proof {
        assert(s@.subrange(0, n as int) =~= s@);
    }
    out
}

/// Relies on std's `String: FromIterator<char>`: collecting characters yields
/// the string of exactly those characters, in order.
#[verifier::external_body]
pub(crate) fn chars_to_string(v: &Vec<char>) -> (s: String)
    ensures
        s@ == v@,
{
    v.iter().collect()
}

/// Character-for-character string equality.
pub fn str_eq(a: &str, b: &str) -> (r: bool)
    ensures
        r == (a@ == b@),
{
    let n: usize = a.unicode_len();
    if n != b.unicode_len() {
        return false;
    }
    let mut i: usize = 0;
    while i < n
        invariant
            i <= n,
            n == a@.len() == b@.len(),
            forall|j: int| 0 <= j < i ==> a@[j] == b@[j],
        decreases n - i,
    {
        if a.get_char(i) != b.get_char(i) {
            return false;
        }
        i += 1;
    }
    proof {
        assert(a@ =~= b@);
    }
    true
}

/// Base-10 value of a digit run, or `None` when it exceeds `u32::MAX`.
pub fn digits_value(v: &Vec<char>, from: usize, to: usize) -> (r: Option<u32>)
    requires
        from <= to <= v@.len(),
        all_digits(v@.subrange(from as int, to as int)),
    ensures
        match r {
            Some(x) => x as int == digits_val(v@.subrange(from as int, to as int)),
            None => digits_val(v@.subrange(from as int, to as int)) > u32::MAX,
        },
{
    let mut acc: u64 = 0;
    let mut j: usize = from;
    proof {
        assert(v@.subrange(from as int, from as int) =~= Seq::<char>::empty());
    }
    while j < to
        invariant
            from <= j <= to <= v@.len(),
            all_digits(v@.subrange(from as int, to as int)),
            acc as int == digits_val(v@.subrange(from as int, j as int)),
            acc <= u32::MAX,
        decreases to - j,
    {
        proof {
            let full = v@.subrange(from as int, to as int);
            assert(full[j - from] == v@[j as int]);
            assert(is_digit(v@[j as int]));
        }
        let d: u64 = (v[j] as u32 - 48) as u64;
        let next: u64 = acc * 10 + d;
        proof {
            let s1 = v@.subrange(from as int, j as int + 1);
            assert(s1.drop_last() =~= v@.subrange(from as int, j as int));
            assert(s1.last() == v@[j as int]);
            assert(next as int == digits_val(s1));
        }
        if next > u32::MAX as u64 {
            proof {
                let full = v@.subrange(from as int, to as int);
                lemma_digits_val_prefix(full, j + 1 - from as int);
                assert(full.subrange(0, j + 1 - from as int) =~= v@.subrange(
                    from as int,
                    j as int + 1,
                ));
            }
            return None;
        }
        acc = next;
        j += 1;
    }
    Some(acc as u32)
}

} // verus!
