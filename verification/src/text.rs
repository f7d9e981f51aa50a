//! Character-level text handling shared by the rest of the library:
//! Unicode whitespace, trimming, whitespace-separated words, line
//! splitting and decimal / hexadecimal rendering of integers.
use vstd::prelude::*;
use vstd::string::StringExecFns;

verus! {

/// The Unicode `White_Space` property, which is the set of characters that
/// `char::is_whitespace` accepts.
pub open spec fn is_ws(c: char) -> bool {
    let u = c as u32;
    ||| u == 0x20
    ||| 0x09 <= u <= 0x0d
    ||| u == 0x85
    ||| u == 0xa0
    ||| u == 0x1680
    ||| 0x2000 <= u <= 0x200a
    ||| u == 0x2028
    ||| u == 0x2029
    ||| u == 0x202f
    ||| u == 0x205f
    ||| u == 0x3000
}

/// Whether `c` is a Unicode whitespace character.
pub fn is_whitespace(c: char) -> (b: bool)
    ensures
        b == is_ws(c),
{
    let u = c as u32;
    u == 0x20 || (0x09 <= u && u <= 0x0d) || u == 0x85 || u == 0xa0 || u == 0x1680 || (0x2000
        <= u && u <= 0x200a) || u == 0x2028 || u == 0x2029 || u == 0x202f || u == 0x205f || u
        == 0x3000
}

/// `s` without its leading whitespace.
pub open spec fn trim_start(s: Seq<char>) -> Seq<char>
    decreases s.len(),
{
    if s.len() > 0 && is_ws(s[0]) {
        trim_start(s.drop_first())
    } else {
        s
    }
}

/// `s` without its trailing whitespace.
pub open spec fn trim_end(s: Seq<char>) -> Seq<char>
    decreases s.len(),
{
    if s.len() > 0 && is_ws(s.last()) {
        trim_end(s.drop_last())
    } else {
        s
    }
}

/// `s` without leading and trailing whitespace, as `str::trim` gives it.
pub open spec fn trimmed(s: Seq<char>) -> Seq<char> {
    trim_end(trim_start(s))
}

/// Number of characters of the word that starts `s` (zero when `s` is
/// empty or starts with whitespace).
pub open spec fn word_len(s: Seq<char>) -> nat
    decreases s.len(),
{
    if s.len() == 0 || is_ws(s[0]) {
        0
    } else {
        1 + word_len(s.drop_first())
    }
}

/// The maximal runs of non-whitespace characters of `s`, in order, as
/// `str::split_whitespace` yields them.
pub open spec fn words(s: Seq<char>) -> Seq<Seq<char>>
    decreases s.len(),
{
    if s.len() == 0 {
        Seq::empty()
    } else if is_ws(s[0]) {
        words(s.drop_first())
    } else {
        let n = word_len(s);
        proof {
            lemma_word_len_bounds(s);
        }
        seq![s.take(n as int)] + words(s.skip(n as int))
    }
}

/// Number of characters before the first line feed of `s` (all of `s`
/// when it holds none).
pub open spec fn line_len(s: Seq<char>) -> nat
    decreases s.len(),
{
    if s.len() == 0 || s[0] == '\n' {
        0
    } else {
        1 + line_len(s.drop_first())
    }
}

/// The pieces of `s` between line feeds; a line feed at the very end
/// opens no further piece, and an empty `s` has no pieces.
pub open spec fn raw_lines(s: Seq<char>) -> Seq<Seq<char>>
    decreases s.len(),
{
    if s.len() == 0 {
        Seq::empty()
    } else {
        let n = line_len(s);
        proof {
            lemma_line_len_bound(s);
        }
        if n == s.len() {
            seq![s]
        } else {
            seq![s.take(n as int)] + raw_lines(s.skip(n + 1int))
        }
    }
}

pub proof fn lemma_word_len_bounds(s: Seq<char>)
    ensures
        word_len(s) <= s.len(),
        s.len() > 0 && !is_ws(s[0]) ==> word_len(s) >= 1,
    decreases s.len(),
{
    if s.len() > 0 && !is_ws(s[0]) {
        lemma_word_len_bounds(s.drop_first());
    }
}

pub proof fn lemma_line_len_bound(s: Seq<char>)
    ensures
        line_len(s) <= s.len(),
    decreases s.len(),
{
    if s.len() > 0 && s[0] != '\n' {
        lemma_line_len_bound(s.drop_first());
    }
}

/// The decimal digit character for `d < 10`.
pub open spec fn digit_char(d: nat) -> char {
    if d == 0 {
        '0'
    } else if d == 1 {
        '1'
    } else if d == 2 {
        '2'
    } else if d == 3 {
        '3'
    } else if d == 4 {
        '4'
    } else if d == 5 {
        '5'
    } else if d == 6 {
        '6'
    } else if d == 7 {
        '7'
    } else if d == 8 {
        '8'
    } else {
        '9'
    }
}

/// The decimal rendering of `n`, without sign or leading zeros, as `{}`
/// formats an unsigned integer.
pub open spec fn decimal(n: nat) -> Seq<char>
    decreases n,
{
    if n < 10 {
        seq![digit_char(n)]
    } else {
        decimal(n / 10).push(digit_char(n % 10))
    }
}

/// The lower-case hexadecimal digit character for `d < 16`.
pub open spec fn hex_digit_char(d: nat) -> char {
    if d < 10 {
        digit_char(d)
    } else if d == 10 {
        'a'
    } else if d == 11 {
        'b'
    } else if d == 12 {
        'c'
    } else if d == 13 {
        'd'
    } else if d == 14 {
        'e'
    } else {
        'f'
    }
}

/// A byte as two lower-case hexadecimal digits, as `{:02x}` formats it.
pub open spec fn hex2(b: u8) -> Seq<char> {
    seq![hex_digit_char((b / 16) as nat), hex_digit_char((b % 16) as nat)]
}

/// `s` padded on the right with spaces to at least `width` characters, as
/// `{:<width}` formats it.
pub open spec fn pad_right(s: Seq<char>, width: nat) -> Seq<char> {
    if s.len() >= width {
        s
    } else {
        s + Seq::new((width - s.len()) as nat, |i: int| ' ')
    }
}

/// Appends one character: `String::push`.
#[verifier::external_body]
pub fn push_char(s: &mut String, c: char)
    ensures
        final(s)@ == old(s)@.push(c),
{
    s.push(c)
}

/// Removes the last character: `String::pop`.
#[verifier::external_body]
pub fn pop_char(s: &mut String) -> (r: Option<char>)
    ensures
        old(s)@.len() == 0 ==> r is None && final(s)@ == old(s)@,
        old(s)@.len() > 0 ==> r == Some(old(s)@.last()) && final(s)@ == old(s)@.drop_last(),
{
    s.pop()
}

/// The characters of `s`.
pub fn to_chars(s: &str) -> (v: Vec<char>)
    ensures
        v@ == s@,
{
    let mut v: Vec<char> = Vec::new();
    for c in it: s.chars()
        invariant
            v.len() == it.index(),
            forall|i: int| 0 <= i < v.len() ==> v@[i] == it.seq()[i],
    {
        v.push(c);
    }
    v
}

/// The string made of the characters `v[from..to]`.
pub fn string_of_range(v: &Vec<char>, from: usize, to: usize) -> (s: String)
    requires
        from <= to <= v.len(),
    ensures
        s@ == v@.subrange(from as int, to as int),
{
    let mut s = String::new();
    let mut i = from;
    while i < to
        invariant
            from <= i <= to <= v.len(),
            s@ == v@.subrange(from as int, i as int),
        decreases to - i,
    {
        push_char(&mut s, v[i]);
        assert(v@.subrange(from as int, i + 1) =~= v@.subrange(from as int, i as int).push(v@[i as int]));
        i = i + 1;
    }
    s
}

/// Appends the characters of `t` to `s`.
pub fn push_all(s: &mut String, t: &str)
    ensures
        final(s)@ == old(s)@ + t@,
{
    s.append(t);
}

/// A string holding the characters of the literal `t`.
pub fn string_from(t: &str) -> (s: String)
    ensures
        s@ == t@,
{
    <String as StringExecFns>::from_str(t)
}

/// The decimal digit character for `d`.
pub fn digit(d: u64) -> (c: char)
    requires
        d < 10,
    ensures
        c == digit_char(d as nat),
{
    if d == 0 {
        '0'
    } else if d == 1 {
        '1'
    } else if d == 2 {
        '2'
    } else if d == 3 {
        '3'
    } else if d == 4 {
        '4'
    } else if d == 5 {
        '5'
    } else if d == 6 {
        '6'
    } else if d == 7 {
        '7'
    } else if d == 8 {
        '8'
    } else {
        '9'
    }
}

/// The lower-case hexadecimal digit character for `d`.
pub fn hex_digit(d: u8) -> (c: char)
    requires
        d < 16,
    ensures
        c == hex_digit_char(d as nat),
{
    if d < 10 {
        digit(d as u64)
    } else if d == 10 {
        'a'
    } else if d == 11 {
        'b'
    } else if d == 12 {
        'c'
    } else if d == 13 {
        'd'
    } else if d == 14 {
        'e'
    } else {
        'f'
    }
}

/// Appends the decimal rendering of `n` to `s`.
pub fn push_decimal(s: &mut String, n: u64)
    ensures
        final(s)@ == old(s)@ + decimal(n as nat),
    decreases n,
{
    if n >= 10 {
        push_decimal(s, n / 10);
    }
    let ghost mid = s@;
    push_char(s, digit(n % 10));
    assert(s@ == old(s)@ + decimal(n as nat)) by {
        if n >= 10 {
            assert(decimal(n as nat) == decimal((n / 10) as nat).push(digit_char((n % 10) as nat)));
            assert(old(s)@ + decimal((n / 10) as nat).push(digit_char((n % 10) as nat)) =~= (old(
                s,
            )@ + decimal((n / 10) as nat)).push(digit_char((n % 10) as nat)));
        } else {
            assert(old(s)@ + seq![digit_char(n as nat)] =~= old(s)@.push(digit_char(n as nat)));
        }
    }
}

/// The decimal rendering of `n`.
pub fn decimal_string(n: u64) -> (s: String)
    ensures
        s@ == decimal(n as nat),
{
    let mut s = String::new();
    push_decimal(&mut s, n);
    assert(Seq::<char>::empty() + decimal(n as nat) =~= decimal(n as nat));
    s
}

/// Appends `b` as two lower-case hexadecimal digits to `s`.
pub fn push_hex2(s: &mut String, b: u8)
    ensures
        final(s)@ == old(s)@ + hex2(b),
{
    push_char(s, hex_digit(b / 16));
    push_char(s, hex_digit(b % 16));
    assert(old(s)@.push(hex_digit_char((b / 16) as nat)).push(hex_digit_char((b % 16) as nat))
        =~= old(s)@ + hex2(b));
}

/// Appends `t` to `s`, then spaces up to `width` characters for `t`.
pub fn push_padded(s: &mut String, t: &str, width: usize)
    ensures
        final(s)@ == old(s)@ + pad_right(t@, width as nat),
{
    let n = t.unicode_len();
    push_all(s, t);
    if n < width {
        let fill = width - n;
        let mut k: usize = 0;
        while k < fill
            invariant
                k <= fill,
                s@ == old(s)@ + t@ + Seq::new(k as nat, |i: int| ' '),
            decreases fill - k,
        {
            push_char(s, ' ');
            assert(old(s)@ + t@ + Seq::new((k + 1) as nat, |i: int| ' ') =~= (old(s)@ + t@
                + Seq::new(k as nat, |i: int| ' ')).push(' '));
            k = k + 1;
        }
        assert(old(s)@ + t@ + Seq::new(fill as nat, |i: int| ' ') =~= old(s)@ + (t@ + Seq::new(
            (width - t@.len()) as nat,
            |i: int| ' ',
        )));
    }
}

pub proof fn lemma_trim_start_skip(s: Seq<char>, i: int)
    requires
        0 <= i <= s.len(),
        forall|k: int| 0 <= k < i ==> is_ws(#[trigger] s[k]),
        i == s.len() || !is_ws(s[i]),
    ensures
        trim_start(s) == s.skip(i),
    decreases i,
{
    if i == 0 {
        assert(s.skip(0) =~= s);
    } else {
        assert forall|k: int| 0 <= k < i - 1 implies is_ws(#[trigger] s.drop_first()[k]) by {
            assert(s.drop_first()[k] == s[k + 1]);
        }
        lemma_trim_start_skip(s.drop_first(), i - 1);
        assert(s.drop_first().skip(i - 1) =~= s.skip(i));
    }
}

pub proof fn lemma_trim_end_take(s: Seq<char>, j: int)
    requires
        0 <= j <= s.len(),
        forall|k: int| j <= k < s.len() ==> is_ws(#[trigger] s[k]),
        j == 0 || !is_ws(s[j - 1]),
    ensures
        trim_end(s) == s.take(j),
    decreases s.len() - j,
{
    if j == s.len() {
        assert(s.take(j) =~= s);
    } else {
        assert forall|k: int| j <= k < s.drop_last().len() implies is_ws(
            #[trigger] s.drop_last()[k],
        ) by {
            assert(s.drop_last()[k] == s[k]);
        }
        lemma_trim_end_take(s.drop_last(), j);
        assert(s.drop_last().take(j) =~= s.take(j));
    }
}

/// Indexes `(from, to)` such that `v[from..to]` is `v` trimmed.
pub fn trim_bounds(v: &Vec<char>) -> (r: (usize, usize))
    ensures
        r.0 <= r.1 <= v.len(),
        v@.subrange(r.0 as int, r.1 as int) == trimmed(v@),
{
    let mut i: usize = 0;
    while i < v.len() && is_whitespace(v[i])
        invariant
            i <= v.len(),
            forall|k: int| 0 <= k < i ==> is_ws(#[trigger] v@[k]),
        decreases v.len() - i,
    {
        i = i + 1;
    }
    proof {
        lemma_trim_start_skip(v@, i as int);
    }
    let mut j: usize = v.len();
    while j > i && is_whitespace(v[j - 1])
        invariant
            i <= j <= v.len(),
            forall|k: int| j <= k < v.len() ==> is_ws(#[trigger] v@[k]),
        decreases j,
    {
        j = j - 1;
    }
    proof {
        let t = v@.skip(i as int);
        assert forall|k: int| j - i <= k < t.len() implies is_ws(#[trigger] t[k]) by {
            assert(t[k] == v@[k + i]);
        }
        if j > i {
            assert(t[j - i - 1] == v@[j - 1]);
        }
        lemma_trim_end_take(t, j - i);
        assert(t.take(j - i) =~= v@.subrange(i as int, j as int));
    }
    (i, j)
}

/// `s` without leading and trailing whitespace: `str::trim`.
pub fn trim(s: &str) -> (t: String)
    ensures
        t@ == trimmed(s@),
{
    let v = to_chars(s);
    let (a, b) = trim_bounds(&v);
    string_of_range(&v, a, b)
}

pub proof fn lemma_words_skip_ws(s: Seq<char>, i: int)
    requires
        0 <= i < s.len(),
        is_ws(s[i]),
    ensures
        words(s.skip(i)) == words(s.skip(i + 1)),
{
    assert(s.skip(i)[0] == s[i]);
    assert(s.skip(i).drop_first() =~= s.skip(i + 1));
}

pub proof fn lemma_word_len_step(s: Seq<char>, j: int)
    requires
        0 <= j < s.len(),
        !is_ws(s[j]),
    ensures
        word_len(s.skip(j)) == 1 + word_len(s.skip(j + 1)),
{
    assert(s.skip(j)[0] == s[j]);
    assert(s.skip(j).drop_first() =~= s.skip(j + 1));
}

pub proof fn lemma_line_len_step(s: Seq<char>, j: int)
    requires
        0 <= j < s.len(),
        s[j] != '\n',
    ensures
        line_len(s.skip(j)) == 1 + line_len(s.skip(j + 1)),
{
    assert(s.skip(j)[0] == s[j]);
    assert(s.skip(j).drop_first() =~= s.skip(j + 1));
}

/// End of the word of `v` that starts at `i`: the first index at or after
/// `i` that holds whitespace, or the length of `v`.
pub fn word_end(v: &Vec<char>, i: usize) -> (j: usize)
    requires
        i <= v.len(),
    ensures
        i <= j <= v.len(),
        j - i == word_len(v@.skip(i as int)),
        forall|k: int| i <= k < j ==> !is_ws(#[trigger] v@[k]),
{
    let mut j = i;
    while j < v.len() && !is_whitespace(v[j])
        invariant
            i <= j <= v.len(),
            word_len(v@.skip(i as int)) == (j - i) + word_len(v@.skip(j as int)),
            forall|k: int| i <= k < j ==> !is_ws(#[trigger] v@[k]),
        decreases v.len() - j,
    {
        proof {
            lemma_word_len_step(v@, j as int);
        }
        j = j + 1;
    }
    if j < v.len() {
        assert(v@.skip(j as int)[0] == v@[j as int]);
    }
    j
}

/// The first `max` words of `v[from..to]`, in order.
pub fn leading_words(v: &Vec<char>, from: usize, to: usize, max: usize) -> (ws: Vec<String>)
    requires
        from <= to <= v.len(),
    ensures
        ws@.len() == if words(v@.subrange(from as int, to as int)).len() < max {
            words(v@.subrange(from as int, to as int)).len()
        } else {
            max as nat
        },
        forall|k: int|
            0 <= k < ws@.len() ==> (#[trigger] ws@[k])@ == words(
                v@.subrange(from as int, to as int),
            )[k],
{
    let ghost s = v@.subrange(from as int, to as int);
    let mut out: Vec<String> = Vec::new();
    let sub: Vec<char> = slice_chars(v, from, to);
    assert(sub@ == s);
    let mut p: usize = 0;
    assert(s.skip(0) =~= s);
    assert(out@.map_values(|w: String| w@) + words(s.skip(0)) =~= words(s));
    while p < sub.len() && out.len() < max
        invariant
            p <= sub.len(),
            sub@ == s,
            out.len() <= max,
            words(s) == out@.map_values(|w: String| w@) + words(s.skip(p as int)),
        decreases sub.len() - p + (max - out.len()),
    {
        if is_whitespace(sub[p]) {
            proof {
                lemma_words_skip_ws(s, p as int);
            }
            p = p + 1;
        } else {
            let e = word_end(&sub, p);
            let w = string_of_range(&sub, p, e);
            proof {
                let t = s.skip(p as int);
                assert(t[0] == s[p as int]);
                lemma_word_len_bounds(t);
                assert(t.take((e - p) as int) =~= s.subrange(p as int, e as int));
                assert(t.skip((e - p) as int) =~= s.skip(e as int));
                assert(words(t) == seq![t.take((e - p) as int)] + words(t.skip((e - p) as int)));
                assert(out@.push(w).map_values(|w: String| w@) =~= out@.map_values(
                    |w: String| w@,
                ).push(w@));
                assert(out@.map_values(|w: String| w@) + words(t) =~= out@.push(w).map_values(
                    |w: String| w@,
                ) + words(s.skip(e as int)));
            }
            out.push(w);
            p = e;
        }
    }
    proof {
        let m = out@.map_values(|w: String| w@);
        assert(words(s).len() >= m.len());
        if out.len() < max {
            assert(p == sub.len());
            assert(s.skip(p as int) =~= Seq::<char>::empty());
            assert(words(s) =~= m);
        }
        assert forall|k: int| 0 <= k < out@.len() implies (#[trigger] out@[k])@ == words(s)[k] by {
            assert(m[k] == out@[k]@);
        }
    }
    out
}

/// The characters `v[from..to]` as a vector.
pub fn slice_chars(v: &Vec<char>, from: usize, to: usize) -> (r: Vec<char>)
    requires
        from <= to <= v.len(),
    ensures
        r@ == v@.subrange(from as int, to as int),
{
    let mut r: Vec<char> = Vec::new();
    let mut i = from;
    while i < to
        invariant
            from <= i <= to <= v.len(),
            r@ == v@.subrange(from as int, i as int),
        decreases to - i,
    {
        r.push(v[i]);
        assert(v@.subrange(from as int, i + 1) =~= v@.subrange(from as int, i as int).push(
            v@[i as int],
        ));
        i = i + 1;
    }
    r
}

/// End of the line of `v` that starts at `i`: the index of the next line
/// feed, or the length of `v`.
pub fn line_end(v: &Vec<char>, i: usize) -> (j: usize)
    requires
        i <= v.len(),
    ensures
        i <= j <= v.len(),
        j - i == line_len(v@.skip(i as int)),
{
    let mut j = i;
    while j < v.len() && v[j] != '\n'
        invariant
            i <= j <= v.len(),
            line_len(v@.skip(i as int)) == (j - i) + line_len(v@.skip(j as int)),
        decreases v.len() - j,
    {
        proof {
            lemma_line_len_step(v@, j as int);
        }
        j = j + 1;
    }
    if j < v.len() {
        assert(v@.skip(j as int)[0] == v@[j as int]);
    }
    j
}

/// Whether `c` occurs in `s`.
pub fn contains_char(s: &Vec<char>, c: char) -> (b: bool)
    ensures
        b == s@.contains(c),
{
    let mut i: usize = 0;
    while i < s.len()
        invariant
            i <= s.len(),
            forall|k: int| 0 <= k < i ==> s@[k] != c,
        decreases s.len() - i,
    {
        if s[i] == c {
            return true;
        }
        i = i + 1;
    }
    false
}

} // verus!
