//! Character-level helpers over `Seq<char>`: whitespace as Rust defines it,
//! trimming, splitting on a separator or on whitespace, prefixes and
//! decimal integers.
use vstd::prelude::*;
use vstd::utf8::encode_utf8;
use vstd::utf8::encode_scalar;

verus! {

/// The Unicode `White_Space` property, which `char::is_whitespace` tests.
pub open spec fn is_ws(c: char) -> bool {
    let u = c as u32;
    ||| u == 0x20
    ||| (0x09 <= u && u <= 0x0D)
    ||| u == 0x85
    ||| u == 0xA0
    ||| u == 0x1680
    ||| (0x2000 <= u && u <= 0x200A)
    ||| u == 0x2028
    ||| u == 0x2029
    ||| u == 0x202F
    ||| u == 0x205F
    ||| u == 0x3000
}

pub fn is_whitespace(c: char) -> (r: bool)
    ensures
        r == is_ws(c),
{
    let u = c as u32;
    u == 0x20 || (0x09 <= u && u <= 0x0D) || u == 0x85 || u == 0xA0 || u == 0x1680 || (0x2000
        <= u && u <= 0x200A) || u == 0x2028 || u == 0x2029 || u == 0x202F || u == 0x205F || u
        == 0x3000
}

/// The characters of `s`, in order.
pub fn chars_of(s: &str) -> (r: Vec<char>)
    ensures
        r@ == s@,
{
    let n = s.unicode_len();
    let mut v: Vec<char> = Vec::new();
    let mut i: usize = 0;
    while i < n
        invariant
            n == s@.len(),
            i <= n,
            v@ == s@.take(i as int),
        decreases n - i,
    {
        let c = s.get_char(i);
        v.push(c);
        i = i + 1;
        assert(v@ =~= s@.take(i as int));
    }
    assert(v@ =~= s@);
    v
}


/// A copy of `v[a..b]`.
pub fn copy_range(v: &Vec<char>, a: usize, b: usize) -> (r: Vec<char>)
    requires
        a <= b <= v@.len(),
    ensures
        r@ == v@.subrange(a as int, b as int),
{
    let mut out: Vec<char> = Vec::new();
    let mut i = a;
    while i < b
        invariant
            a <= i <= b,
            b <= v@.len(),
            out@ == v@.subrange(a as int, i as int),
        decreases b - i,
    {
        out.push(v[i]);
        i = i + 1;
        assert(out@ =~= v@.subrange(a as int, i as int));
    }
    out
}

/// Index of the first character at or after `i` that is not whitespace, or
/// the length when there is none.
pub open spec fn skip_ws(s: Seq<char>, i: int) -> int
    decreases s.len() - i,
{
    if i < 0 || i >= s.len() {
        i
    } else if is_ws(s[i]) {
        skip_ws(s, i + 1)
    } else {
        i
    }
}

/// Index of the first whitespace character at or after `i`, or the length.
pub open spec fn word_end(s: Seq<char>, i: int) -> int
    decreases s.len() - i,
{
    if i < 0 || i >= s.len() {
        i
    } else if !is_ws(s[i]) {
        word_end(s, i + 1)
    } else {
        i
    }
}

/// Index just after the last non-whitespace character before `j`, or 0.
pub open spec fn rskip_ws(s: Seq<char>, j: int) -> int
    decreases j,
{
    if j <= 0 || j > s.len() {
        if j <= 0 { 0 } else { j }
    } else if is_ws(s[j - 1]) {
        rskip_ws(s, j - 1)
    } else {
        j
    }
}

pub proof fn lemma_skip_ws(s: Seq<char>, i: int)
    requires
        0 <= i <= s.len(),
    ensures
        i <= skip_ws(s, i) <= s.len(),
        skip_ws(s, i) < s.len() ==> !is_ws(s[skip_ws(s, i)]),
        forall|k: int| i <= k < skip_ws(s, i) ==> is_ws(#[trigger] s[k]),
    decreases s.len() - i,
{
    if i < s.len() && is_ws(s[i]) {
        lemma_skip_ws(s, i + 1);
    }
}

pub proof fn lemma_word_end(s: Seq<char>, i: int)
    requires
        0 <= i <= s.len(),
    ensures
        i <= word_end(s, i) <= s.len(),
        word_end(s, i) < s.len() ==> is_ws(s[word_end(s, i)]),
        forall|k: int| i <= k < word_end(s, i) ==> !is_ws(#[trigger] s[k]),
    decreases s.len() - i,
{
    if i < s.len() && !is_ws(s[i]) {
        lemma_word_end(s, i + 1);
    }
}

pub proof fn lemma_rskip_ws(s: Seq<char>, j: int)
    requires
        0 <= j <= s.len(),
    ensures
        0 <= rskip_ws(s, j) <= j,
        rskip_ws(s, j) > 0 ==> !is_ws(s[rskip_ws(s, j) - 1]),
        forall|k: int| rskip_ws(s, j) <= k < j ==> is_ws(#[trigger] s[k]),
    decreases j,
{
    if j > 0 && is_ws(s[j - 1]) {
        lemma_rskip_ws(s, j - 1);
    }
}

/// The whitespace-separated words of `s` that start at or after `i`
/// (what `str::split_whitespace` yields).
pub open spec fn words_from(s: Seq<char>, i: int) -> Seq<Seq<char>>
    decreases s.len() - i,
{
    if i < 0 || i >= s.len() {
        Seq::empty()
    } else {
        let j = skip_ws(s, i);
        if j >= s.len() {
            Seq::empty()
        } else {
            let k = word_end(s, j);
            proof {
                lemma_skip_ws(s, i);
                lemma_word_end(s, j);
            }
            if k <= i {
                Seq::empty()
            } else {
                seq![s.subrange(j, k)] + words_from(s, k)
            }
        }
    }
}

pub open spec fn split_ws(s: Seq<char>) -> Seq<Seq<char>> {
    words_from(s, 0)
}

/// `s` with leading and trailing whitespace removed (`str::trim`).
pub open spec fn trim(s: Seq<char>) -> Seq<char> {
    let a = skip_ws(s, 0);
    let b = rskip_ws(s, s.len() as int);
    if a >= b {
        Seq::empty()
    } else {
        s.subrange(a, b)
    }
}

pub open spec fn starts_with(s: Seq<char>, p: Seq<char>) -> bool {
    p.len() <= s.len() && s.take(p.len() as int) == p
}

pub fn skip_ws_exec(v: &Vec<char>, i: usize) -> (r: usize)
    requires
        i <= v@.len(),
    ensures
        r == skip_ws(v@, i as int),
{
    proof {
        lemma_skip_ws(v@, i as int);
    }
    let mut j = i;
    while j < v.len() && is_whitespace(v[j])
        invariant
            i <= j <= v@.len(),
            skip_ws(v@, j as int) == skip_ws(v@, i as int),
        decreases v@.len() - j,
    {
        j = j + 1;
    }
    j
}

pub fn word_end_exec(v: &Vec<char>, i: usize) -> (r: usize)
    requires
        i <= v@.len(),
    ensures
        r == word_end(v@, i as int),
{
    let mut j = i;
    while j < v.len() && !is_whitespace(v[j])
        invariant
            i <= j <= v@.len(),
            word_end(v@, j as int) == word_end(v@, i as int),
        decreases v@.len() - j,
    {
        j = j + 1;
    }
    j
}

pub fn rskip_ws_exec(v: &Vec<char>, j: usize) -> (r: usize)
    requires
        j <= v@.len(),
    ensures
        r == rskip_ws(v@, j as int),
{
    let mut k = j;
    while k > 0 && is_whitespace(v[k - 1])
        invariant
            k <= j <= v@.len(),
            rskip_ws(v@, k as int) == rskip_ws(v@, j as int),
        decreases k,
    {
        k = k - 1;
    }
    k
}

/// `str::trim` over characters.
pub fn trim_chars(v: &Vec<char>) -> (r: Vec<char>)
    ensures
        r@ == trim(v@),
{
    let a = skip_ws_exec(v, 0);
    let b = rskip_ws_exec(v, v.len());
    proof {
        lemma_rskip_ws(v@, v@.len() as int);
    }
    if a >= b {
        Vec::new()
    } else {
        copy_range(v, a, b)
    }
}

/// The character sequences held by a sequence of character vectors.
pub open spec fn char_views(v: Seq<Vec<char>>) -> Seq<Seq<char>> {
    v.map_values(|x: Vec<char>| x@)
}

/// `str::split_whitespace` over characters.
pub fn split_ws_chars(v: &Vec<char>) -> (r: Vec<Vec<char>>)
    ensures
        char_views(r@) == split_ws(v@),
{
    let mut out: Vec<Vec<char>> = Vec::new();
    let mut i: usize = 0;
    while i < v.len()
        invariant
            i <= v@.len(),
            char_views(out@) + words_from(v@, i as int) == words_from(v@, 0),
        decreases v@.len() - i,
    {
        let j = skip_ws_exec(v, i);
        proof {
            lemma_skip_ws(v@, i as int);
        }
        if j >= v.len() {
            assert(words_from(v@, i as int) == Seq::<Seq<char>>::empty());
            i = v.len();
            assert(char_views(out@) + words_from(v@, i as int) =~= char_views(out@));
        } else {
            let k = word_end_exec(v, j);
            proof {
                lemma_word_end(v@, j as int);
            }
            let w = copy_range(v, j, k);
            let ghost old_out = char_views(out@);
            out.push(w);
            assert(char_views(out@) =~= old_out.push(v@.subrange(j as int, k as int)));
            assert(words_from(v@, i as int) == seq![v@.subrange(j as int, k as int)] + words_from(
                v@,
                k as int,
            ));
            assert(old_out + words_from(v@, i as int) =~= char_views(out@) + words_from(
                v@,
                k as int,
            ));
            i = k;
        }
    }
    assert(words_from(v@, i as int) == Seq::<Seq<char>>::empty());
    assert(char_views(out@) + words_from(v@, i as int) =~= char_views(out@));
    out
}

pub fn starts_with_chars(v: &Vec<char>, p: &Vec<char>) -> (r: bool)
    ensures
        r == starts_with(v@, p@),
{
    if p.len() > v.len() {
        return false;
    }
    let mut i: usize = 0;
    while i < p.len()
        invariant
            p@.len() <= v@.len(),
            i <= p@.len(),
            forall|k: int| 0 <= k < i ==> v@[k] == p@[k],
        decreases p@.len() - i,
    {
        if v[i] != p[i] {
            assert(v@.take(p@.len() as int)[i as int] != p@[i as int]);
            return false;
        }
        i = i + 1;
    }
    assert(v@.take(p@.len() as int) =~= p@);
    true
}


/// Index of the first `c` at or after `i`, or the length.
pub open spec fn next_index(s: Seq<char>, c: char, i: int) -> int
    decreases s.len() - i,
{
    if i < 0 || i >= s.len() {
        s.len() as int
    } else if s[i] == c {
        i
    } else {
        next_index(s, c, i + 1)
    }
}

pub proof fn lemma_next_index(s: Seq<char>, c: char, i: int)
    requires
        0 <= i <= s.len(),
    ensures
        i <= next_index(s, c, i) <= s.len(),
        next_index(s, c, i) < s.len() ==> s[next_index(s, c, i)] == c,
        forall|k: int| i <= k < next_index(s, c, i) ==> #[trigger] s[k] != c,
    decreases s.len() - i,
{
    if i < s.len() && s[i] != c {
        lemma_next_index(s, c, i + 1);
    }
}

/// The pieces of `s` between occurrences of `c`, from index `i` on.
pub open spec fn pieces_from(s: Seq<char>, c: char, i: int) -> Seq<Seq<char>>
    decreases s.len() + 1 - i,
{
    if i < 0 || i > s.len() {
        Seq::empty()
    } else {
        let j = next_index(s, c, i);
        proof {
            lemma_next_index(s, c, i);
        }
        if j < s.len() {
            seq![s.subrange(i, j)] + pieces_from(s, c, j + 1)
        } else {
            seq![s.subrange(i, s.len() as int)]
        }
    }
}

/// `s` cut at every `c` (the pieces of `str::split(c)`).
pub open spec fn split_on(s: Seq<char>, c: char) -> Seq<Seq<char>> {
    pieces_from(s, c, 0)
}

/// Splitting always yields at least one piece.
pub proof fn lemma_split_on_nonempty(s: Seq<char>, c: char)
    ensures
        split_on(s, c).len() >= 1,
        s.len() > 0 ==> split_on(s, c)[0] == s.take(next_index(s, c, 0)),
{
    lemma_next_index(s, c, 0);
    if next_index(s, c, 0) >= s.len() {
        assert(s.subrange(0, s.len() as int) =~= s.take(s.len() as int));
    }
}

/// `str::split(c)` over characters.
pub fn split_on_chars(v: &Vec<char>, c: char) -> (r: Vec<Vec<char>>)
    ensures
        char_views(r@) == split_on(v@, c),
{
    let mut out: Vec<Vec<char>> = Vec::new();
    let mut i: usize = 0;
    loop
        invariant
            i <= v@.len(),
            char_views(out@) + pieces_from(v@, c, i as int) == pieces_from(v@, c, 0),
        decreases v@.len() - i,
    {
        let mut j = i;
        while j < v.len() && v[j] != c
            invariant
                i <= j <= v@.len(),
                next_index(v@, c, j as int) == next_index(v@, c, i as int),
            decreases v@.len() - j,
        {
            j = j + 1;
        }
        proof {
            lemma_next_index(v@, c, i as int);
        }
        let piece = copy_range(v, i, j);
        let ghost old_out = char_views(out@);
        out.push(piece);
        assert(char_views(out@) =~= old_out.push(v@.subrange(i as int, j as int)));
        if j >= v.len() {
            assert(pieces_from(v@, c, i as int) == seq![v@.subrange(i as int, v@.len() as int)]);
            assert(old_out + pieces_from(v@, c, i as int) =~= char_views(out@));
            return out;
        }
        assert(pieces_from(v@, c, i as int) == seq![v@.subrange(i as int, j as int)]
            + pieces_from(v@, c, j + 1));
        assert(old_out + pieces_from(v@, c, i as int) =~= char_views(out@) + pieces_from(
            v@,
            c,
            j + 1,
        ));
        i = j + 1;
    }
}

/// Appends one character to a string (`String::push`).
#[verifier::external_body]
pub(crate) fn push_char(s: &mut String, c: char)
    ensures
        final(s)@ == old(s)@.push(c),
{
    s.push(c);
}

/// A string holding exactly the characters `v`.
pub fn string_from_chars(v: &Vec<char>) -> (r: String)
    ensures
        r@ == v@,
{
    let mut out = String::new();
    let mut i: usize = 0;
    while i < v.len()
        invariant
            i <= v@.len(),
            out@ == v@.take(i as int),
        decreases v@.len() - i,
    {
        push_char(&mut out, v[i]);
        i = i + 1;
        assert(out@ =~= v@.take(i as int));
    }
    assert(v@.take(v@.len() as int) =~= v@);
    out
}

pub open spec fn is_digit(c: char) -> bool {
    '0' as u32 <= c as u32 && c as u32 <= '9' as u32
}

pub open spec fn all_digits(d: Seq<char>) -> bool {
    forall|i: int| 0 <= i < d.len() ==> is_digit(#[trigger] d[i])
}

/// The value of a string of decimal digits.
pub open spec fn digits_value(d: Seq<char>) -> int
    decreases d.len(),
{
    if d.len() == 0 {
        0
    } else {
        digits_value(d.drop_last()) * 10 + (d.last() as u32 - '0' as u32)
    }
}

/// What `str::parse::<i32>` accepts: an optional `+` or `-`, then at least
/// one decimal digit and nothing else, with a value that fits in `i32`.
pub open spec fn parse_i32(s: Seq<char>) -> Option<i32> {
    let neg = s.len() > 0 && s[0] == '-';
    let signed = s.len() > 0 && (s[0] == '-' || s[0] == '+');
    let d = if signed {
        s.drop_first()
    } else {
        s
    };
    if d.len() == 0 || !all_digits(d) {
        None
    } else {
        let v = if neg {
            -digits_value(d)
        } else {
            digits_value(d)
        };
        if i32::MIN <= v <= i32::MAX {
            Some(v as i32)
        } else {
            None
        }
    }
}

proof fn lemma_digits_value_grows(d: Seq<char>, k: int)
    requires
        0 <= k <= d.len(),
        all_digits(d),
    ensures
        0 <= digits_value(d.take(k)) <= digits_value(d),
    decreases d.len() - k,
{
    if k < d.len() {
        lemma_digits_value_grows(d, k + 1);
        assert(d.take(k + 1).drop_last() =~= d.take(k));
    } else {
        assert(d.take(k) =~= d);
    }
    lemma_digits_value_nonneg(d.take(k));
}

proof fn lemma_digits_value_nonneg(d: Seq<char>)
    requires
        all_digits(d),
    ensures
        digits_value(d) >= 0,
    decreases d.len(),
{
    if d.len() > 0 {
        assert(is_digit(d[d.len() - 1]));
        lemma_digits_value_nonneg(d.drop_last());
    }
}

/// `str::parse::<i32>` over characters.
pub fn parse_i32_chars(v: &Vec<char>) -> (r: Option<i32>)
    ensures
        r == parse_i32(v@),
{
    let n = v.len();
    let neg = n > 0 && v[0] == '-';
    let signed = n > 0 && (v[0] == '-' || v[0] == '+');
    let start: usize = if signed {
        1
    } else {
        0
    };
    let ghost d = if signed {
        v@.drop_first()
    } else {
        v@
    };
    assert(d =~= v@.subrange(start as int, n as int));
    if start >= n {
        return None;
    }
    let mut acc: i64 = 0;
    let mut i = start;
    while i < n
        invariant
            start <= i <= n,
            n == v@.len(),
            d == v@.subrange(start as int, n as int),
            d == (if v@.len() > 0 && (v@[0] == '-' || v@[0] == '+') {
                v@.drop_first()
            } else {
                v@
            }),
            neg == (v@.len() > 0 && v@[0] == '-'),
            all_digits(d.take(i - start)),
            acc == digits_value(d.take(i - start)),
            0 <= acc <= 2147483648,
        decreases n - i,
    {
        let c = v[i];
        let cu = c as u32;
        assert(d[i - start] == c);
        if cu < '0' as u32 || cu > '9' as u32 {
            assert(!is_digit(d[i - start]));
            assert(!all_digits(d));
            return None;
        }
        let dv = (cu - '0' as u32) as i64;
        let next = acc * 10 + dv;
        proof {
            assert(d.take(i - start + 1).drop_last() =~= d.take(i - start));
            assert(d.take(i - start + 1).last() == c);
            assert(all_digits(d.take(i - start + 1)));
            assert(digits_value(d.take(i - start + 1)) == acc * 10 + dv);
        }
        if next > 2147483648 {
            proof {
                // every remaining prefix only grows, so the whole value is too large
                if all_digits(d) {
                    lemma_digits_value_grows(d, i - start + 1);
                }
            }
            return None;
        }
        acc = next;
        i = i + 1;
    }
    assert(d.take(i - start) =~= d);
    if neg {
        Some((0 - acc) as i32)
    } else if acc > 2147483647 {
        None
    } else {
        Some(acc as i32)
    }
}

/// The words joined with single spaces (`[..].join(" ")`).
pub open spec fn join_space(words: Seq<Seq<char>>) -> Seq<char>
    decreases words.len(),
{
    if words.len() == 0 {
        Seq::empty()
    } else if words.len() == 1 {
        words[0]
    } else {
        join_space(words.drop_last()) + seq![' '] + words.last()
    }
}

pub fn join_space_strings(words: &Vec<String>) -> (r: String)
    ensures
        r@ == join_space(words@.map_values(|w: String| w@)),
{
    let ghost ws = words@.map_values(|w: String| w@);
    let mut out = String::new();
    let mut i: usize = 0;
    while i < words.len()
        invariant
            i <= words@.len(),
            ws == words@.map_values(|w: String| w@),
            out@ == join_space(ws.take(i as int)),
        decreases words@.len() - i,
    {
        let ghost before = out@;
        if i > 0 {
            push_char(&mut out, ' ');
        }
        out.append(words[i].as_str());
        proof {
            assert(ws.take(i + 1).drop_last() =~= ws.take(i as int));
            if i == 0 {
                assert(before =~= Seq::<char>::empty());
                assert(out@ =~= ws.take(1)[0]);
            } else {
                assert(out@ =~= before + seq![' '] + ws[i as int]);
            }
        }
        i = i + 1;
    }
    assert(ws.take(words@.len() as int) =~= ws);
    out
}


pub open spec fn digit_char(d: int) -> char {
    if d == 0 {
        '0'
    } else if d == 1 {
        '1'
    } else if d == 2 {
        '2'
    } else if d == 3 {
        '3'
    } else if d == 4 {
        '4'
    } else if d == 5 {
        '5'
    } else if d == 6 {
        '6'
    } else if d == 7 {
        '7'
    } else if d == 8 {
        '8'
    } else {
        '9'
    }
}

/// The decimal digits of `n`, most significant first.
pub open spec fn nat_decimal(n: nat) -> Seq<char>
    decreases n,
{
    if n < 10 {
        seq![digit_char(n as int)]
    } else {
        nat_decimal(n / 10) + seq![digit_char((n % 10) as int)]
    }
}

/// `v` as `Display` writes an integer.
pub open spec fn int_decimal(v: int) -> Seq<char> {
    if v < 0 {
        seq!['-'] + nat_decimal((-v) as nat)
    } else {
        nat_decimal(v as nat)
    }
}

fn digit_of(d: u64) -> (c: char)
    requires
        d < 10,
    ensures
        c == digit_char(d as int),
{
    if d == 0 {
        '0'
    } else if d == 1 {
        '1'
    } else if d == 2 {
        '2'
    } else if d == 3 {
        '3'
    } else if d == 4 {
        '4'
    } else if d == 5 {
        '5'
    } else if d == 6 {
        '6'
    } else if d == 7 {
        '7'
    } else if d == 8 {
        '8'
    } else {
        '9'
    }
}

/// Appends the decimal digits of `n`.
pub fn push_decimal(out: &mut String, n: u64)
    ensures
        final(out)@ == old(out)@ + nat_decimal(n as nat),
    decreases n,
{
    if n >= 10 {
        push_decimal(out, n / 10);
    }
    push_char(out, digit_of(n % 10));
    proof {
        if n < 10 {
            assert(n % 10 == n);
        }
    }
    assert(final(out)@ =~= old(out)@ + nat_decimal(n as nat)) by {
        if n >= 10 {
            assert(nat_decimal(n as nat) == nat_decimal((n / 10) as nat) + seq![digit_char((n % 10) as int)]);
        }
    }
}

/// Appends `v` written in decimal, with a leading `-` when negative.
pub fn push_i64(out: &mut String, v: i64)
    requires
        v > i64::MIN,
    ensures
        final(out)@ == old(out)@ + int_decimal(v as int),
{
    if v < 0 {
        push_char(out, '-');
        let m = (0 - v) as u64;
        push_decimal(out, m);
        assert(final(out)@ =~= old(out)@ + int_decimal(v as int));
    } else {
        push_decimal(out, v as u64);
    }
}

/// Number of bytes that UTF-8 spends on `c`.
pub open spec fn utf8_width(c: char) -> nat {
    if (c as u32) <= 0x7F {
        1
    } else if (c as u32) <= 0x7FF {
        2
    } else if (c as u32) <= 0xFFFF {
        3
    } else {
        4
    }
}

proof fn lemma_encode_scalar_len(c: char)
    ensures
        encode_scalar(c as u32).len() == utf8_width(c),
{
}

proof fn lemma_encode_utf8_concat(a: Seq<char>, b: Seq<char>)
    ensures
        encode_utf8(a + b) == encode_utf8(a) + encode_utf8(b),
    decreases a.len(),
{
    if a.len() == 0 {
        assert(a + b =~= b);
        assert(encode_utf8(a) + encode_utf8(b) =~= encode_utf8(b));
    } else {
        assert((a + b).drop_first() =~= a.drop_first() + b);
        assert((a + b)[0] == a[0]);
        lemma_encode_utf8_concat(a.drop_first(), b);
        assert(encode_utf8(a + b) =~= encode_utf8(a) + encode_utf8(b));
    }
}

proof fn lemma_encode_utf8_step(s: Seq<char>, i: int)
    requires
        0 <= i < s.len(),
    ensures
        encode_utf8(s.take(i + 1)).len() == encode_utf8(s.take(i)).len() + utf8_width(s[i]),
        encode_utf8(s).len() == encode_utf8(s.take(i + 1)).len() + encode_utf8(s.skip(i + 1)).len(),
{
    assert(s.take(i + 1) =~= s.take(i) + seq![s[i]]);
    lemma_encode_utf8_concat(s.take(i), seq![s[i]]);
    lemma_encode_scalar_len(s[i]);
    let one = seq![s[i]];
    assert(one.drop_first() =~= Seq::<char>::empty());
    assert(encode_utf8(Seq::<char>::empty()).len() == 0);
    assert(encode_utf8(one) == encode_scalar(one[0] as u32) + encode_utf8(one.drop_first()));
    assert(s =~= s.take(i + 1) + s.skip(i + 1));
    lemma_encode_utf8_concat(s.take(i + 1), s.skip(i + 1));
}

/// Whether the UTF-8 encoding of `v` (what `str::len` counts) has at most
/// `limit` bytes.
pub fn utf8_len_at_most(v: &Vec<char>, limit: usize) -> (r: bool)
    ensures
        r == (encode_utf8(v@).len() <= limit),
{
    let mut count: usize = 0;
    let mut i: usize = 0;
    while i < v.len()
        invariant
            i <= v@.len(),
            count <= limit,
            count == encode_utf8(v@.take(i as int)).len(),
        decreases v@.len() - i,
    {
        proof {
            lemma_encode_utf8_step(v@, i as int);
        }
        let u = v[i] as u32;
        let w: usize = if u <= 0x7F {
            1
        } else if u <= 0x7FF {
            2
        } else if u <= 0xFFFF {
            3
        } else {
            4
        };
        if limit - count < w {
            return false;
        }
        count = count + w;
        i = i + 1;
    }
    assert(v@.take(v@.len() as int) =~= v@);
    true
}

/// `p` occurs in `s` as a contiguous run (`str::contains` with a `&str`
/// pattern).
pub open spec fn contains_sub(s: Seq<char>, p: Seq<char>) -> bool {
    exists|i: int| 0 <= i && i + p.len() <= s.len() && #[trigger] s.subrange(i, i + p.len()) == p
}

fn matches_at(v: &Vec<char>, p: &Vec<char>, i: usize) -> (r: bool)
    requires
        i + p@.len() <= v@.len(),
    ensures
        r == (v@.subrange(i as int, i + p@.len()) == p@),
{
    let _n = v.len();
    let mut k: usize = 0;
    while k < p.len()
        invariant
            k <= p@.len(),
            i + p@.len() <= v@.len(),
            v@.len() <= usize::MAX,
            forall|j: int| 0 <= j < k ==> v@[i + j] == p@[j],
        decreases p@.len() - k,
    {
        if v[i + k] != p[k] {
            assert(v@.subrange(i as int, i + p@.len())[k as int] != p@[k as int]);
            return false;
        }
        k = k + 1;
    }
    assert(v@.subrange(i as int, i + p@.len()) =~= p@);
    true
}

/// Whether `p` occurs in `s`.
pub fn contains_text(s: &str, p: &str) -> (r: bool)
    ensures
        r == contains_sub(s@, p@),
{
    let v = chars_of(s);
    let pv = chars_of(p);
    if pv.len() > v.len() {
        return false;
    }
    let last = v.len() - pv.len();
    let mut i: usize = 0;
    while i <= last
        invariant
            last + pv@.len() == v@.len(),
            v@ == s@,
            pv@ == p@,
            forall|j: int| 0 <= j < i ==> #[trigger] v@.subrange(j, j + pv@.len()) != pv@,
        decreases last + 1 - i,
    {
        if matches_at(&v, &pv, i) {
            return true;
        }
        if i == last {
            assert forall|j: int| 0 <= j && j + p@.len() <= s@.len() implies #[trigger] s@.subrange(
                j,
                j + p@.len(),
            ) != p@ by {
                assert(j <= last);
            }
            return false;
        }
        i = i + 1;
    }
    false
}

/// The words with `sep` between each two of them (`[..].join(sep)`).
pub open spec fn join_with(words: Seq<Seq<char>>, sep: Seq<char>) -> Seq<char>
    decreases words.len(),
{
    if words.len() == 0 {
        Seq::empty()
    } else if words.len() == 1 {
        words[0]
    } else {
        join_with(words.drop_last(), sep) + sep + words.last()
    }
}

/// The strings joined with `sep`.
pub fn join_strings(words: &Vec<String>, sep: &str) -> (r: String)
    ensures
        r@ == join_with(words@.map_values(|w: String| w@), sep@),
{
    let ghost ws = words@.map_values(|w: String| w@);
    let mut out = String::new();
    let mut i: usize = 0;
    while i < words.len()
        invariant
            i <= words@.len(),
            ws == words@.map_values(|w: String| w@),
            out@ == join_with(ws.take(i as int), sep@),
        decreases words@.len() - i,
    {
        let ghost before = out@;
        if i > 0 {
            out.append(sep);
        }
        out.append(words[i].as_str());
        proof {
            assert(ws.take(i + 1).drop_last() =~= ws.take(i as int));
            if i == 0 {
                assert(before =~= Seq::<char>::empty());
                assert(out@ =~= ws.take(1)[0]);
            } else {
                assert(out@ =~= before + sep@ + ws[i as int]);
            }
        }
        i = i + 1;
    }
    assert(ws.take(words@.len() as int) =~= ws);
    out
}

/// `a` followed by `b`.
pub fn concat_str(a: &str, b: &str) -> (r: String)
    ensures
        r@ == a@ + b@,
{
    let mut out = String::from_str(a);
    out.append(b);
    out
}

/// Whether the two character vectors are equal.
pub fn same_chars(a: &Vec<char>, b: &Vec<char>) -> (r: bool)
    ensures
        r == (a@ == b@),
{
    if a.len() != b.len() {
        return false;
    }
    let mut i: usize = 0;
    while i < a.len()
        invariant
            i <= a@.len(),
            a@.len() == b@.len(),
            forall|k: int| 0 <= k < i ==> a@[k] == b@[k],
        decreases a@.len() - i,
    {
        if a[i] != b[i] {
            return false;
        }
        i = i + 1;
    }
    assert(a@ =~= b@);
    true
}

} // verus!
