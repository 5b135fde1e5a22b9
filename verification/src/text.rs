//! Character-level text handling shared by the response parsers.
//!
//! Text is handled as `Vec<char>`; pieces of a text are described by spans
//! `(start, end)` into it. The spec functions here state what `str::trim`,
//! `str::lines`, `str::split_whitespace` and integer parsing produce.
use vstd::prelude::*;
use vstd::string::StrSliceExecFns;

verus! {

/// Unicode `White_Space`, the set that `char::is_whitespace` tests.
pub open spec fn is_space(c: char) -> bool {
    let v = c as u32;
    ||| (9 <= v && v <= 13)
    ||| v == 32
    ||| v == 0x85
    ||| v == 0xA0
    ||| v == 0x1680
    ||| (0x2000 <= v && v <= 0x200A)
    ||| v == 0x2028
    ||| v == 0x2029
    ||| v == 0x202F
    ||| v == 0x205F
    ||| v == 0x3000
}

pub fn is_space_char(c: char) -> (r: bool)
    ensures
        r == is_space(c),
{
    let v = c as u32;
    (9 <= v && v <= 13) || v == 32 || v == 0x85 || v == 0xA0 || v == 0x1680 || (0x2000 <= v && v
        <= 0x200A) || v == 0x2028 || v == 0x2029 || v == 0x202F || v == 0x205F || v == 0x3000
}

/// The text with leading white space removed.
pub open spec fn trim_start(s: Seq<char>) -> Seq<char>
    decreases s.len(),
{
    if s.len() > 0 && is_space(s[0]) {
        trim_start(s.drop_first())
    } else {
        s
    }
}

/// The text with trailing white space removed.
pub open spec fn trim_end(s: Seq<char>) -> Seq<char>
    decreases s.len(),
{
    if s.len() > 0 && is_space(s.last()) {
        trim_end(s.drop_last())
    } else {
        s
    }
}

/// What `str::trim` gives back.
pub open spec fn trim(s: Seq<char>) -> Seq<char> {
    trim_end(trim_start(s))
}

/// Index of the first `'\n'`, or the length when there is none.
pub open spec fn first_newline(s: Seq<char>) -> nat
    decreases s.len(),
{
    if s.len() == 0 {
        0
    } else if s[0] == '\n' {
        0
    } else {
        1 + first_newline(s.drop_first())
    }
}

/// A line without the `'\r'` that stood before its `'\n'`.
pub open spec fn strip_cr(l: Seq<char>) -> Seq<char> {
    if l.len() > 0 && l.last() == '\r' {
        l.drop_last()
    } else {
        l
    }
}

/// What `str::lines` yields: the text split at `'\n'`, a `'\r'` before a
/// `'\n'` dropped, and no empty last line after a final `'\n'`.
pub open spec fn lines(s: Seq<char>) -> Seq<Seq<char>>
    decreases s.len(),
{
    if s.len() == 0 {
        seq![]
    } else {
        let j = first_newline(s);
        if j < s.len() {
            seq![strip_cr(s.take(j as int))] + lines(s.skip((j + 1) as int))
        } else {
            seq![s]
        }
    }
}

/// The pieces of `s` that `spans` mark out.
pub open spec fn span_texts(s: Seq<char>, spans: Seq<(usize, usize)>) -> Seq<Seq<char>> {
    Seq::new(spans.len(), |i: int| s.subrange(spans[i].0 as int, spans[i].1 as int))
}

/// Every span lies within `s`.
pub open spec fn spans_valid(s: Seq<char>, spans: Seq<(usize, usize)>) -> bool {
    forall|i: int| 0 <= i < spans.len() ==> #[trigger] spans[i].0 <= spans[i].1 <= s.len()
}

proof fn lemma_trim_start_skip(s: Seq<char>, k: int)
    requires
        0 <= k <= s.len(),
        forall|i: int| 0 <= i < k ==> is_space(#[trigger] s[i]),
    ensures
        trim_start(s) == trim_start(s.skip(k)),
    decreases k,
{
    if k > 0 {
        assert(s.skip(1) =~= s.drop_first());
        lemma_trim_start_skip(s.drop_first(), k - 1);
        assert(s.drop_first().skip(k - 1) =~= s.skip(k));
    } else {
        assert(s.skip(0) =~= s);
    }
}

proof fn lemma_trim_end_take(s: Seq<char>, k: int)
    requires
        0 <= k <= s.len(),
        forall|i: int| k <= i < s.len() ==> is_space(#[trigger] s[i]),
    ensures
        trim_end(s) == trim_end(s.take(k)),
    decreases s.len() - k,
{
    if k < s.len() {
        assert(is_space(s[s.len() - 1]));
        lemma_trim_end_take(s.drop_last(), k);
        assert(s.drop_last().take(k) =~= s.take(k));
    } else {
        assert(s.take(k) =~= s);
    }
}

/// Trailing white space trimmed off a text and what follows it: only where
/// the second part is all white space does the trimming reach the first.
pub(crate) proof fn lemma_trim_end_append(a: Seq<char>, w: Seq<char>)
    ensures
        trim_end(a + w) == if trim_end(w).len() == 0 {
            trim_end(a)
        } else {
            a + trim_end(w)
        },
    decreases w.len(),
{
    if w.len() == 0 {
        assert(a + w =~= a);
    } else {
        let aw = a + w;
        assert(aw.last() == w.last());
        if is_space(w.last()) {
            assert(aw.drop_last() =~= a + w.drop_last());
            lemma_trim_end_append(a, w.drop_last());
        }
    }
}

/// A trimmed end is empty or ends in a character that is not white space,
/// so trimming it again changes nothing.
pub(crate) proof fn lemma_trim_end_again(s: Seq<char>)
    ensures
        trim_end(s).len() == 0 || !is_space(trim_end(s).last()),
        trim_end(trim_end(s)) == trim_end(s),
    decreases s.len(),
{
    if s.len() > 0 && is_space(s.last()) {
        lemma_trim_end_again(s.drop_last());
    }
}

/// Trimming the start and trimming the end can be done in either order.
pub(crate) proof fn lemma_trim_commute(v: Seq<char>)
    ensures
        trim_start(trim_end(v)) == trim_end(trim_start(v)),
    decreases v.len(),
{
    if v.len() > 0 {
        let c = v[0];
        let v1 = v.drop_first();
        assert(v =~= seq![c] + v1);
        lemma_trim_end_append(seq![c], v1);
        lemma_trim_commute(v1);
        if is_space(c) {
            assert(seq![c].drop_last() =~= Seq::<char>::empty());
            assert(trim_end(seq![c]) == trim_end(Seq::<char>::empty()));
            if trim_end(v1).len() > 0 {
                let x = seq![c] + trim_end(v1);
                assert(x.drop_first() =~= trim_end(v1));
            }
        } else {
            assert(trim_end(v)[0] == c);
        }
    }
}

/// Trimming a text whose end was already trimmed gives what trimming the
/// text gives.
pub(crate) proof fn lemma_trim_after_trim_end(v: Seq<char>)
    ensures
        trim(trim_end(v)) == trim(v),
{
    lemma_trim_commute(v);
    lemma_trim_end_again(trim_start(v));
}

/// The span of `s[lo..hi]` that `str::trim` keeps.
pub fn trim_span(s: &Vec<char>, lo: usize, hi: usize) -> (r: (usize, usize))
    requires
        lo <= hi <= s@.len(),
    ensures
        lo <= r.0 <= r.1 <= hi,
        s@.subrange(r.0 as int, r.1 as int) == trim(s@.subrange(lo as int, hi as int)),
{
    let mut a = lo;
    while a < hi && is_space_char(s[a])
        invariant
            lo <= a <= hi <= s@.len(),
            forall|i: int| lo <= i < a ==> is_space(#[trigger] s@[i]),
        decreases hi - a,
    {
        a = a + 1;
    }
    let ghost t = s@.subrange(lo as int, hi as int);
    proof {
        assert forall|i: int| 0 <= i < a - lo implies is_space(#[trigger] t[i]) by {
            assert(t[i] == s@[lo + i]);
        }
        lemma_trim_start_skip(t, a - lo);
        assert(t.skip(a - lo) =~= s@.subrange(a as int, hi as int));
        if a < hi {
            assert(!is_space(s@.subrange(a as int, hi as int)[0]));
        }
    }
    let mut b = hi;
    while b > a && is_space_char(s[b - 1])
        invariant
            lo <= a <= b <= hi <= s@.len(),
            forall|i: int| b <= i < hi ==> is_space(#[trigger] s@[i]),
        decreases b,
    {
        b = b - 1;
    }
    proof {
        let u = s@.subrange(a as int, hi as int);
        assert forall|i: int| b - a <= i < u.len() implies is_space(#[trigger] u[i]) by {
            assert(u[i] == s@[a + i]);
        }
        lemma_trim_end_take(u, b - a);
        assert(u.take(b - a) =~= s@.subrange(a as int, b as int));
        if a < b {
            assert(!is_space(s@.subrange(a as int, b as int).last()));
        } else {
            assert(s@.subrange(a as int, b as int).len() == 0);
        }
    }
    (a, b)
}

proof fn lemma_first_newline(t: Seq<char>, k: int)
    requires
        0 <= k <= t.len(),
        forall|i: int| 0 <= i < k ==> #[trigger] t[i] != '\n',
        k == t.len() || t[k] == '\n',
    ensures
        first_newline(t) == k,
    decreases k,
{
    if k > 0 {
        lemma_first_newline(t.drop_first(), k - 1);
    }
}

/// The spans of the lines of `s`, as `str::lines` yields them.
pub fn line_spans(s: &Vec<char>) -> (r: Vec<(usize, usize)>)
    ensures
        spans_valid(s@, r@),
        span_texts(s@, r@) == lines(s@),
{
    let n = s.len();
    let mut r: Vec<(usize, usize)> = Vec::new();
    let mut pos: usize = 0;
    proof {
        assert(s@.subrange(0, n as int) =~= s@);
        assert(span_texts(s@, r@) =~= seq![]);
    }
    while pos < n
        invariant
            pos <= n == s@.len(),
            spans_valid(s@, r@),
            lines(s@) == span_texts(s@, r@) + lines(s@.subrange(pos as int, n as int)),
        decreases n - pos,
    {
        let mut j = pos;
        while j < n && s[j] != '\n'
            invariant
                pos <= j <= n == s@.len(),
                forall|i: int| pos <= i < j ==> #[trigger] s@[i] != '\n',
            decreases n - j,
        {
            j = j + 1;
        }
        let ghost t = s@.subrange(pos as int, n as int);
        proof {
            assert forall|i: int| 0 <= i < j - pos implies #[trigger] t[i] != '\n' by {
                assert(t[i] == s@[pos + i]);
            }
            lemma_first_newline(t, j - pos);
            assert(t.take(j - pos) =~= s@.subrange(pos as int, j as int));
        }
        let ghost old_r = r@;
        if j < n {
            let e = if j > pos && s[j - 1] == '\r' {
                j - 1
            } else {
                j
            };
            r.push((pos, e));
            proof {
                assert(t.skip(j - pos + 1) =~= s@.subrange(j + 1, n as int));
                let l = s@.subrange(pos as int, j as int);
                if j > pos && s@[j - 1] == '\r' {
                    assert(l.drop_last() =~= s@.subrange(pos as int, e as int));
                } else {
                    assert(l =~= s@.subrange(pos as int, e as int));
                }
                assert(span_texts(s@, r@) =~= span_texts(s@, old_r).push(strip_cr(l)));
                assert(lines(t) == seq![strip_cr(l)] + lines(s@.subrange(j + 1, n as int)));
                assert(span_texts(s@, r@) + lines(s@.subrange(j + 1, n as int)) =~= span_texts(
                    s@,
                    old_r,
                ) + lines(t));
            }
            pos = j + 1;
        } else {
            r.push((pos, n));
            proof {
                assert(span_texts(s@, r@) =~= span_texts(s@, old_r).push(t));
                assert(lines(t) == seq![t]);
                assert(s@.subrange(n as int, n as int) =~= Seq::<char>::empty());
                assert(span_texts(s@, r@) + lines(s@.subrange(n as int, n as int)) =~= span_texts(
                    s@,
                    old_r,
                ) + lines(t));
            }
            pos = n;
        }
    }
    proof {
        assert(s@.subrange(n as int, n as int) =~= Seq::<char>::empty());
        assert(span_texts(s@, r@) + seq![] =~= span_texts(s@, r@));
    }
    r
}

/// The characters of `s`.
pub fn chars_of(s: &str) -> (r: Vec<char>)
    ensures
        r@ == s@,
{
    let n = s.unicode_len();
    let mut r: Vec<char> = Vec::new();
    let mut i: usize = 0;
    while i < n
        invariant
            i <= n == s@.len(),
            r@ == s@.take(i as int),
        decreases n - i,
    {
        let c = s.get_char(i);
        r.push(c);
        i = i + 1;
        proof {
            assert(r@ =~= s@.take(i as int));
        }
    }
    proof {
        assert(s@.take(n as int) =~= s@);
    }
    r
}


/// `String::push` appends one character.
pub assume_specification[ String::push ](s: &mut String, ch: char)
    ensures
        final(s)@ == old(s)@.push(ch),
;

/// Index of the first white space character, or the length when there is none.
pub open spec fn first_space(s: Seq<char>) -> nat
    decreases s.len(),
{
    if s.len() == 0 {
        0
    } else if is_space(s[0]) {
        0
    } else {
        1 + first_space(s.drop_first())
    }
}

/// What `str::split_whitespace` yields: the maximal runs of characters that
/// are not white space, in order.
pub open spec fn words(s: Seq<char>) -> Seq<Seq<char>>
    decreases s.len(),
{
    if s.len() == 0 {
        seq![]
    } else if is_space(s[0]) {
        words(s.drop_first())
    } else {
        let k = first_space(s);
        if 0 < k <= s.len() {
            seq![s.take(k as int)] + words(s.skip(k as int))
        } else {
            seq![]
        }
    }
}

proof fn lemma_first_space(t: Seq<char>, k: int)
    requires
        0 <= k <= t.len(),
        forall|i: int| 0 <= i < k ==> !is_space(#[trigger] t[i]),
        k == t.len() || is_space(t[k]),
    ensures
        first_space(t) == k,
    decreases k,
{
    if k > 0 {
        lemma_first_space(t.drop_first(), k - 1);
    }
}

/// The spans of the words of `s[lo..hi]`, as `str::split_whitespace` yields them.
pub fn word_spans(s: &Vec<char>, lo: usize, hi: usize) -> (r: Vec<(usize, usize)>)
    requires
        lo <= hi <= s@.len(),
    ensures
        spans_valid(s@, r@),
        span_texts(s@, r@) == words(s@.subrange(lo as int, hi as int)),
{
    let mut r: Vec<(usize, usize)> = Vec::new();
    let mut pos: usize = lo;
    proof {
        assert(span_texts(s@, r@) =~= seq![]);
        assert(seq![] + words(s@.subrange(lo as int, hi as int)) =~= words(
            s@.subrange(lo as int, hi as int),
        ));
    }
    while pos < hi
        invariant
            lo <= pos <= hi <= s@.len(),
            spans_valid(s@, r@),
            words(s@.subrange(lo as int, hi as int)) == span_texts(s@, r@) + words(
                s@.subrange(pos as int, hi as int),
            ),
        decreases hi - pos,
    {
        let ghost t = s@.subrange(pos as int, hi as int);
        if is_space_char(s[pos]) {
            proof {
                assert(t.drop_first() =~= s@.subrange(pos + 1, hi as int));
            }
            pos = pos + 1;
        } else {
            let mut j = pos + 1;
            while j < hi && !is_space_char(s[j])
                invariant
                    pos < j <= hi <= s@.len(),
                    forall|i: int| pos <= i < j ==> !is_space(#[trigger] s@[i]),
                decreases hi - j,
            {
                j = j + 1;
            }
            let ghost old_r = r@;
            r.push((pos, j));
            proof {
                assert forall|i: int| 0 <= i < j - pos implies !is_space(#[trigger] t[i]) by {
                    assert(t[i] == s@[pos + i]);
                }
                lemma_first_space(t, j - pos);
                assert(t.take(j - pos) =~= s@.subrange(pos as int, j as int));
                assert(t.skip(j - pos) =~= s@.subrange(j as int, hi as int));
                assert(span_texts(s@, r@) =~= span_texts(s@, old_r).push(
                    s@.subrange(pos as int, j as int),
                ));
                assert(span_texts(s@, r@) + words(s@.subrange(j as int, hi as int)) =~= span_texts(
                    s@,
                    old_r,
                ) + words(t));
            }
            pos = j;
        }
    }
    proof {
        assert(s@.subrange(hi as int, hi as int) =~= Seq::<char>::empty());
        assert(span_texts(s@, r@) + seq![] =~= span_texts(s@, r@));
    }
    r
}

/// `p` stands at the start of `s`.
pub open spec fn starts_with(s: Seq<char>, p: Seq<char>) -> bool {
    p.len() <= s.len() && s.take(p.len() as int) == p
}

/// Whether `s[lo..hi]` starts with `p`.
pub fn span_starts_with(s: &Vec<char>, lo: usize, hi: usize, p: &Vec<char>) -> (r: bool)
    requires
        lo <= hi <= s@.len(),
    ensures
        r == starts_with(s@.subrange(lo as int, hi as int), p@),
{
    let ghost t = s@.subrange(lo as int, hi as int);
    if p.len() > hi - lo {
        return false;
    }
    let mut i: usize = 0;
    while i < p.len()
        invariant
            lo <= hi <= s@.len(),
            i <= p@.len() <= hi - lo,
            t == s@.subrange(lo as int, hi as int),
            forall|k: int| 0 <= k < i ==> s@[lo + k] == p@[k],
        decreases p@.len() - i,
    {
        if s[lo + i] != p[i] {
            proof {
                assert(t.take(p@.len() as int)[i as int] != p@[i as int]);
            }
            return false;
        }
        i = i + 1;
    }
    proof {
        assert(t.take(p@.len() as int) =~= p@);
    }
    true
}

/// Whether the two texts are equal.
pub fn span_equals(s: &Vec<char>, lo: usize, hi: usize, p: &Vec<char>) -> (r: bool)
    requires
        lo <= hi <= s@.len(),
    ensures
        r == (s@.subrange(lo as int, hi as int) == p@),
{
    if hi - lo != p.len() {
        return false;
    }
    let r = span_starts_with(s, lo, hi, p);
    proof {
        let t = s@.subrange(lo as int, hi as int);
        assert(t.take(p@.len() as int) =~= t);
    }
    r
}

/// The numeric value of a decimal digit.
pub open spec fn digit_value(c: char) -> nat {
    (c as u32 - 48) as nat
}

pub open spec fn is_digit(c: char) -> bool {
    48 <= c as u32 <= 57
}

pub open spec fn all_digits(s: Seq<char>) -> bool {
    forall|i: int| 0 <= i < s.len() ==> is_digit(#[trigger] s[i])
}

/// The number that a string of decimal digits writes.
pub open spec fn decimal_value(s: Seq<char>) -> nat
    decreases s.len(),
{
    if s.len() == 0 {
        0
    } else {
        decimal_value(s.drop_last()) * 10 + digit_value(s.last())
    }
}

/// The digits of an unsigned integer's text, after an optional leading `'+'`.
pub open spec fn unsigned_digits(s: Seq<char>) -> Seq<char> {
    if s.len() > 0 && s[0] == '+' {
        s.drop_first()
    } else {
        s
    }
}

/// What `str::parse` gives for an unsigned integer type whose largest value
/// is `max`: the value of a non-empty run of decimal digits after an optional
/// `'+'`, provided it does not exceed `max`.
pub open spec fn parse_unsigned(s: Seq<char>, max: nat) -> Option<nat> {
    let d = unsigned_digits(s);
    if d.len() > 0 && all_digits(d) && decimal_value(d) <= max {
        Some(decimal_value(d))
    } else {
        None
    }
}

proof fn lemma_decimal_value_prefix(d: Seq<char>, k: int)
    requires
        0 <= k <= d.len(),
        all_digits(d),
    ensures
        decimal_value(d.take(k)) <= decimal_value(d),
    decreases d.len(),
{
    if k < d.len() {
        assert(all_digits(d.drop_last()));
        lemma_decimal_value_prefix(d.drop_last(), k);
        assert(d.drop_last().take(k) =~= d.take(k));
    } else {
        assert(d.take(k) =~= d);
    }
}

/// Parses `s[lo..hi]` as an unsigned integer no larger than `max`.
pub fn parse_unsigned_span(s: &Vec<char>, lo: usize, hi: usize, max: u64) -> (r: Option<u64>)
    requires
        lo <= hi <= s@.len(),
    ensures
        match r {
            Some(v) => parse_unsigned(s@.subrange(lo as int, hi as int), max as nat) == Some(
                v as nat,
            ),
            None => parse_unsigned(s@.subrange(lo as int, hi as int), max as nat) is None,
        },
{
    let ghost t = s@.subrange(lo as int, hi as int);
    let start = if lo < hi && s[lo] == '+' {
        lo + 1
    } else {
        lo
    };
    let ghost d = s@.subrange(start as int, hi as int);
    proof {
        if lo < hi && s@[lo as int] == '+' {
            assert(t.drop_first() =~= d);
        } else {
            assert(t =~= d);
        }
        assert(unsigned_digits(t) == d);
    }
    if start == hi {
        return None;
    }
    let mut v: u64 = 0;
    let mut i = start;
    while i < hi
        invariant
            lo <= start <= i <= hi <= s@.len(),
            d == s@.subrange(start as int, hi as int),
            t == s@.subrange(lo as int, hi as int),
            unsigned_digits(t) == d,
            all_digits(s@.subrange(start as int, i as int)),
            v as nat == decimal_value(s@.subrange(start as int, i as int)),
            v <= max,
        decreases hi - i,
    {
        let c = s[i];
        let code = c as u32;
        if code < 48 || code > 57 {
            proof {
                assert(!is_digit(d[i - start]));
            }
            return None;
        }
        let dv = (code - 48) as u64;
        let next: u128 = (v as u128) * 10 + (dv as u128);
        let ghost p = s@.subrange(start as int, i + 1);
        proof {
            assert(p.drop_last() =~= s@.subrange(start as int, i as int));
            assert(p.last() == c);
            assert(decimal_value(p) == next);
        }
        if next > max as u128 {
            proof {
                if all_digits(d) {
                    assert(d.take(i + 1 - start) =~= p);
                    lemma_decimal_value_prefix(d, i + 1 - start);
                }
            }
            return None;
        }
        v = next as u64;
        i = i + 1;
        proof {
            assert(all_digits(p));
        }
    }
    Some(v)
}

/// The decimal digit character for `d < 10`.
pub open spec fn digit_char(d: nat) -> char {
    if d == 0 {
        '0'
    } else if d == 1 {
        '1'
    } else if d == 2 {
        '2'
    } else if d == 3 {
        '3'
    } else if d == 4 {
        '4'
    } else if d == 5 {
        '5'
    } else if d == 6 {
        '6'
    } else if d == 7 {
        '7'
    } else if d == 8 {
        '8'
    } else {
        '9'
    }
}

/// The digit character of `d < 10`.
pub fn digit_char_of(d: u8) -> (c: char)
    requires
        d < 10,
    ensures
        c == digit_char(d as nat),
{
    match d {
        0 => '0',
        1 => '1',
        2 => '2',
        3 => '3',
        4 => '4',
        5 => '5',
        6 => '6',
        7 => '7',
        8 => '8',
        _ => '9',
    }
}

/// The decimal text of `n`, as `{}` formats an unsigned integer.
pub open spec fn decimal(n: nat) -> Seq<char>
    decreases n,
{
    if n < 10 {
        seq![digit_char(n)]
    } else {
        decimal(n / 10).push(digit_char(n % 10))
    }
}

/// Appends the decimal text of `n`.
pub fn push_decimal(out: &mut String, n: u128)
    ensures
        final(out)@ == old(out)@ + decimal(n as nat),
    decreases n,
{
    if n >= 10 {
        push_decimal(out, n / 10);
    }
    let d = (n % 10) as u8;
    let c = digit_char_of(d);
    out.push(c);
    proof {
        assert(c == digit_char((n % 10) as nat));
        if n >= 10 {
            assert(old(out)@ + decimal(n as nat) =~= old(out)@ + decimal((n / 10) as nat) + seq![c]);
        } else {
            assert(old(out)@ + decimal(n as nat) =~= old(out)@ + seq![c]);
        }
    }
}

/// Appends `s[lo..hi]`.
pub fn push_span(out: &mut String, s: &Vec<char>, lo: usize, hi: usize)
    requires
        lo <= hi <= s@.len(),
    ensures
        final(out)@ == old(out)@ + s@.subrange(lo as int, hi as int),
{
    let mut i = lo;
    while i < hi
        invariant
            lo <= i <= hi <= s@.len(),
            out@ == old(out)@ + s@.subrange(lo as int, i as int),
        decreases hi - i,
    {
        out.push(s[i]);
        i = i + 1;
        proof {
            assert(out@ =~= old(out)@ + s@.subrange(lo as int, i as int));
        }
    }
}

/// Appends the characters of `s`.
pub fn push_str(out: &mut String, s: &str)
    ensures
        final(out)@ == old(out)@ + s@,
{
    let c = chars_of(s);
    push_span(out, &c, 0, c.len());
    proof {
        assert(c@.subrange(0, c@.len() as int) =~= c@);
    }
}

/// The text `s[lo..hi]` as a `String`.
pub fn string_of_span(s: &Vec<char>, lo: usize, hi: usize) -> (r: String)
    requires
        lo <= hi <= s@.len(),
    ensures
        r@ == s@.subrange(lo as int, hi as int),
{
    let mut r = String::new();
    push_span(&mut r, s, lo, hi);
    r
}


/// Index of the first `c` in `s`, or the length when there is none.
pub open spec fn char_index(s: Seq<char>, c: char) -> nat
    decreases s.len(),
{
    if s.len() == 0 {
        0
    } else if s[0] == c {
        0
    } else {
        1 + char_index(s.drop_first(), c)
    }
}

pub(crate) proof fn lemma_char_index(t: Seq<char>, c: char, k: int)
    requires
        0 <= k <= t.len(),
        forall|i: int| 0 <= i < k ==> #[trigger] t[i] != c,
        k == t.len() || t[k] == c,
    ensures
        char_index(t, c) == k,
    decreases k,
{
    if k > 0 {
        lemma_char_index(t.drop_first(), c, k - 1);
    }
}

/// The pieces of `s` between the occurrences of `c`, in order, as
/// `str::split` yields them: one more piece than `s` holds `c`s.
pub open spec fn split_on(s: Seq<char>, c: char) -> Seq<Seq<char>>
    decreases s.len(),
{
    if char_index(s, c) < s.len() {
        seq![s.take(char_index(s, c) as int)] + split_on(s.skip(char_index(s, c) + 1 as int), c)
    } else {
        seq![s]
    }
}

/// A text without `c` is one piece.
pub(crate) proof fn lemma_split_single(a: Seq<char>, c: char)
    requires
        !a.contains(c),
    ensures
        split_on(a, c) == seq![a],
{
    lemma_char_index(a, c, a.len() as int);
}

/// A piece without `c`, then `c`, then the rest: the piece comes first.
pub(crate) proof fn lemma_split_after_piece(a: Seq<char>, c: char, b: Seq<char>)
    requires
        !a.contains(c),
    ensures
        split_on(a + seq![c] + b, c) == seq![a] + split_on(b, c),
{
    let s = a + seq![c] + b;
    assert forall|i: int| 0 <= i < a.len() implies #[trigger] s[i] != c by {
        assert(s[i] == a[i]);
    }
    assert(s[a.len() as int] == c);
    lemma_char_index(s, c, a.len() as int);
    assert(s.take(a.len() as int) =~= a);
    assert(s.skip(a.len() + 1 as int) =~= b);
}

/// The position of the first `c` in `s[lo..hi]`, or `hi` when there is none.
pub fn find_char(s: &Vec<char>, lo: usize, hi: usize, c: char) -> (r: usize)
    requires
        lo <= hi <= s@.len(),
    ensures
        lo <= r <= hi,
        r - lo == char_index(s@.subrange(lo as int, hi as int), c),
{
    let mut j = lo;
    while j < hi && s[j] != c
        invariant
            lo <= j <= hi <= s@.len(),
            forall|i: int| lo <= i < j ==> #[trigger] s@[i] != c,
        decreases hi - j,
    {
        j = j + 1;
    }
    proof {
        let t = s@.subrange(lo as int, hi as int);
        assert forall|i: int| 0 <= i < j - lo implies #[trigger] t[i] != c by {
            assert(t[i] == s@[lo + i]);
        }
        lemma_char_index(t, c, j - lo);
    }
    j
}

/// Whether two texts are equal.
pub fn str_eq(a: &str, b: &str) -> (r: bool)
    ensures
        r == (a@ == b@),
{
    let ca = chars_of(a);
    let cb = chars_of(b);
    let r = span_equals(&ca, 0, ca.len(), &cb);
    proof {
        assert(ca@.subrange(0, ca@.len() as int) =~= ca@);
    }
    r
}

/// What `str::to_lowercase` gives for a text.
pub uninterp spec fn lowercase(s: Seq<char>) -> Seq<char>;

/// What `str::to_uppercase` gives for a text.
pub uninterp spec fn uppercase(s: Seq<char>) -> Seq<char>;

/// Every character of `s` is ASCII.
pub open spec fn all_ascii(s: Seq<char>) -> bool {
    forall|i: int| 0 <= i < s.len() ==> (#[trigger] s[i] as u32) < 128
}

/// An ASCII capital letter as its small letter; any other character as it is.
pub open spec fn ascii_lower(c: char) -> char {
    if 'A' <= c && c <= 'Z' {
        ((c as u32 + 32) as u32) as char
    } else {
        c
    }
}

/// An ASCII small letter as its capital letter; any other character as it is.
pub open spec fn ascii_upper(c: char) -> char {
    if 'a' <= c && c <= 'z' {
        ((c as u32 - 32) as u32) as char
    } else {
        c
    }
}

/// A text lower-cased: ASCII capitals become small letters, and a text with
/// characters beyond ASCII is mapped as `str::to_lowercase` maps it.
pub open spec fn lower_text(s: Seq<char>) -> Seq<char> {
    if all_ascii(s) {
        s.map_values(|c: char| ascii_lower(c))
    } else {
        lowercase(s)
    }
}

/// A text upper-cased: ASCII small letters become capitals, and a text with
/// characters beyond ASCII is mapped as `str::to_uppercase` maps it.
pub open spec fn upper_text(s: Seq<char>) -> Seq<char> {
    if all_ascii(s) {
        s.map_values(|c: char| ascii_upper(c))
    } else {
        uppercase(s)
    }
}

/// Calls `str::to_lowercase`. Its result is a function of the text alone
/// (Unicode's case mapping), which the contract names. Of an ASCII text,
/// where Unicode maps exactly the capitals `A` to `Z`, it also states the
/// result: each capital as its small letter, every other character unchanged.
#[verifier::external_body]
pub(crate) fn to_lowercase(s: &str) -> (r: String)
    ensures
        r@ == lowercase(s@),
        all_ascii(s@) ==> r@ == s@.map_values(|c: char| ascii_lower(c)),
{
    s.to_lowercase()
}

/// Calls `str::to_uppercase`. Its result is a function of the text alone
/// (Unicode's case mapping), which the contract names. Of an ASCII text,
/// where Unicode maps exactly the small letters `a` to `z`, it also states
/// the result: each small letter as its capital, every other character
/// unchanged.
#[verifier::external_body]
pub(crate) fn to_uppercase(s: &str) -> (r: String)
    ensures
        r@ == uppercase(s@),
        all_ascii(s@) ==> r@ == s@.map_values(|c: char| ascii_upper(c)),
{
    s.to_uppercase()
}

/// `p` occurs in `s`.
pub open spec fn contains(s: Seq<char>, p: Seq<char>) -> bool {
    exists|i: int| 0 <= i <= s.len() - p.len() && #[trigger] s.subrange(i, i + p.len()) == p
}

/// Whether `p` occurs in `s`.
pub fn contains_text(s: &Vec<char>, p: &Vec<char>) -> (r: bool)
    ensures
        r == contains(s@, p@),
{
    if p.len() > s.len() {
        return false;
    }
    let sl = s.len();
    let n = sl - p.len();
    let mut i: usize = 0;
    loop
        invariant
            sl == s@.len(),
            p@.len() <= s@.len(),
            n == s@.len() - p@.len(),
            i <= n,
            forall|k: int| 0 <= k < i ==> #[trigger] s@.subrange(k, k + p@.len()) != p@,
        decreases n - i,
    {
        assert(i + p@.len() <= s@.len());
        let e = i + p.len();
        if span_equals(s, i, e, p) {
            return true;
        }
        if i == n {
            return false;
        }
        i = i + 1;
    }
}

/// The text of an optional string.
pub open spec fn opt_text(o: Option<String>) -> Option<Seq<char>> {
    match o {
        Some(s) => Some(s@),
        None => None,
    }
}


proof fn lemma_digit_char(d: nat)
    requires
        d < 10,
    ensures
        digit_value(digit_char(d)) == d,
        is_digit(digit_char(d)),
{
}

proof fn lemma_decimal_digits(n: nat)
    ensures
        decimal(n).len() > 0,
        all_digits(decimal(n)),
        decimal_value(decimal(n)) == n,
    decreases n,
{
    lemma_digit_char(n % 10);
    let d = decimal(n);
    if n >= 10 {
        lemma_decimal_digits(n / 10);
        assert(d.drop_last() =~= decimal(n / 10));
        assert(d.last() == digit_char(n % 10));
        assert(decimal_value(d) == decimal_value(d.drop_last()) * 10 + digit_value(d.last()));
        assert(n == (n / 10) * 10 + n % 10);
    } else {
        assert(d.drop_last() =~= Seq::<char>::empty());
        assert(d.last() == digit_char(n));
        assert(decimal_value(d) == decimal_value(d.drop_last()) * 10 + digit_value(d.last()));
    }
}

/// A number printed in decimal parses back to itself, for every integer
/// type whose range holds it.
pub proof fn lemma_decimal_parses_back(n: nat, max: nat)
    requires
        n <= max,
    ensures
        parse_unsigned(decimal(n), max) == Some(n),
{
    lemma_decimal_digits(n);
    assert(is_digit(decimal(n)[0]));
}

/// The words `split_whitespace` yields are never empty and hold no white
/// space.
pub proof fn lemma_words_are_words(s: Seq<char>)
    ensures
        forall|i: int| 0 <= i < words(s).len() ==> #[trigger] words(s)[i].len() > 0,
        forall|i: int, j: int|
            0 <= i < words(s).len() && 0 <= j < words(s)[i].len() ==> !is_space(
                #[trigger] words(s)[i][j],
            ),
    decreases s.len(),
{
    if s.len() == 0 {
    } else if is_space(s[0]) {
        lemma_words_are_words(s.drop_first());
        assert(words(s) == words(s.drop_first()));
    } else {
        let k = first_space(s);
        lemma_first_space_bound(s);
        if 0 < k <= s.len() {
            lemma_words_are_words(s.skip(k as int));
            lemma_no_space_before(s);
            let w = words(s);
            assert(w == seq![s.take(k as int)] + words(s.skip(k as int)));
            assert forall|i: int, j: int|
                0 <= i < w.len() && 0 <= j < w[i].len() implies !is_space(#[trigger] w[i][j]) by {
                if i == 0 {
                    assert(w[0][j] == s[j]);
                } else {
                    assert(w[i] == words(s.skip(k as int))[i - 1]);
                }
            }
            assert forall|i: int| 0 <= i < w.len() implies #[trigger] w[i].len() > 0 by {
                if i > 0 {
                    assert(w[i] == words(s.skip(k as int))[i - 1]);
                }
            }
        }
    }
}

proof fn lemma_first_space_bound(s: Seq<char>)
    ensures
        first_space(s) <= s.len(),
        s.len() > 0 && !is_space(s[0]) ==> first_space(s) > 0,
    decreases s.len(),
{
    if s.len() > 0 {
        lemma_first_space_bound(s.drop_first());
    }
}

proof fn lemma_no_space_before(s: Seq<char>)
    ensures
        forall|j: int| 0 <= j < first_space(s) ==> !is_space(#[trigger] s[j]),
    decreases s.len(),
{
    lemma_first_space_bound(s);
    if s.len() > 0 && !is_space(s[0]) {
        lemma_no_space_before(s.drop_first());
        assert forall|j: int| 0 <= j < first_space(s) implies !is_space(#[trigger] s[j]) by {
            if j > 0 {
                assert(s[j] == s.drop_first()[j - 1]);
            }
        }
    }
}

/// A text that holds `p` still holds it with more text after it.
pub proof fn lemma_contains_extends(s: Seq<char>, t: Seq<char>, p: Seq<char>)
    requires
        contains(s, p),
    ensures
        contains(s + t, p),
{
    let i = choose|i: int| 0 <= i <= s.len() - p.len() && #[trigger] s.subrange(i, i + p.len()) == p;
    assert((s + t).subrange(i, i + p.len()) =~= s.subrange(i, i + p.len()));
}


/// `a` comes before `b` in code point order, character by character, a
/// proper prefix first. On UTF-8 text this is the byte order by which
/// `String`'s `Ord` compares.
pub open spec fn lex_lt(a: Seq<char>, b: Seq<char>) -> bool
    decreases a.len(),
{
    if a.len() == 0 {
        b.len() > 0
    } else if b.len() == 0 {
        false
    } else if a[0] != b[0] {
        (a[0] as int) < (b[0] as int)
    } else {
        lex_lt(a.drop_first(), b.drop_first())
    }
}

/// Exactly one of `a < b`, `a == b`, `b < a` holds.
pub proof fn lemma_lex_trichotomy(a: Seq<char>, b: Seq<char>)
    ensures
        lex_lt(a, b) || a == b || lex_lt(b, a),
        !(lex_lt(a, b) && lex_lt(b, a)),
        !(lex_lt(a, b) && a == b),
    decreases a.len(),
{
    if a.len() > 0 && b.len() > 0 && a[0] == b[0] {
        lemma_lex_trichotomy(a.drop_first(), b.drop_first());
        if a.drop_first() == b.drop_first() {
            assert forall|i: int| 0 <= i < a.len() implies a[i] == b[i] by {
                if i > 0 {
                    assert(a[i] == a.drop_first()[i - 1]);
                    assert(b[i] == b.drop_first()[i - 1]);
                }
            }
            assert(a =~= b);
        }
    } else if a.len() == 0 && b.len() == 0 {
        assert(a =~= b);
    } else if a.len() > 0 && b.len() > 0 {
        assert((a[0] as int) != (b[0] as int));
    }
}

/// The order is transitive.
pub proof fn lemma_lex_transitive(a: Seq<char>, b: Seq<char>, c: Seq<char>)
    requires
        lex_lt(a, b),
        lex_lt(b, c),
    ensures
        lex_lt(a, c),
    decreases a.len(),
{
    if a.len() > 0 && b.len() > 0 && c.len() > 0 && a[0] == b[0] && b[0] == c[0] {
        lemma_lex_transitive(a.drop_first(), b.drop_first(), c.drop_first());
    }
}

/// Whether `a` comes before `b`.
pub fn lex_less(a: &Vec<char>, b: &Vec<char>) -> (r: bool)
    ensures
        r == lex_lt(a@, b@),
{
    let mut i: usize = 0;
    proof {
        assert(a@.skip(0) =~= a@);
        assert(b@.skip(0) =~= b@);
    }
    while i < a.len() && i < b.len() && a[i] == b[i]
        invariant
            i <= a@.len(),
            i <= b@.len(),
            lex_lt(a@, b@) == lex_lt(a@.skip(i as int), b@.skip(i as int)),
        decreases a@.len() - i,
    {
        proof {
            assert(a@.skip(i as int).drop_first() =~= a@.skip(i + 1));
            assert(b@.skip(i as int).drop_first() =~= b@.skip(i + 1));
        }
        i = i + 1;
    }
    proof {
        if i < a@.len() {
            assert(a@.skip(i as int)[0] == a@[i as int]);
        }
        if i < b@.len() {
            assert(b@.skip(i as int)[0] == b@[i as int]);
        }
    }
    if i == a.len() {
        i < b.len()
    } else if i == b.len() {
        false
    } else {
        a[i] < b[i]
    }
}

} // verus!
