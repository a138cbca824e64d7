//! Character-level text utilities shared by the collector-output parsers:
//! line and field splitting, whitespace trimming, integer parsing and
//! decimal formatting, each stated over `Seq<char>`.

use vstd::prelude::*;
use vstd::std_specs::iter::IteratorSpec;

verus! {

broadcast use vstd::string::group_string_axioms;

pub assume_specification[ String::push ](s: &mut String, ch: char)
    ensures
        final(s)@ == old(s)@.push(ch),
;

/// The characters of `s`, in order.
pub fn chars_of(s: &str) -> (v: Vec<char>)
    ensures
        v@ == s@,
{
    let mut v: Vec<char> = Vec::new();
    for c in it: s.chars()
        invariant
            v@ == it.seq().take(it.index() as int),
    {
        v.push(c);
    }
    v
}

/// A `String` holding exactly the characters `v`.
pub fn string_of(v: &[char]) -> (s: String)
    ensures
        s@ == v@,
{
    let mut s = String::new();
    let mut i: usize = 0;
    while i < v.len()
        invariant
            i <= v@.len(),
            s@ == v@.take(i as int),
        decreases v@.len() - i,
    {
        s.push(v[i]);
        i += 1;
        assert(s@ =~= v@.take(i as int));
    }
    assert(v@.take(v@.len() as int) =~= v@);
    s
}

/// Unicode `White_Space`, the set that `char::is_whitespace` tests.
pub open spec fn is_ws(c: char) -> bool {
    let u = c as u32;
    ||| 0x9 <= u <= 0xd
    ||| u == 0x20
    ||| u == 0x85
    ||| u == 0xa0
    ||| u == 0x1680
    ||| 0x2000 <= u <= 0x200a
    ||| u == 0x2028
    ||| u == 0x2029
    ||| u == 0x202f
    ||| u == 0x205f
    ||| u == 0x3000
}

/// `char::is_whitespace`.
pub fn is_whitespace(c: char) -> (b: bool)
    ensures
        b == is_ws(c),
{
    let u = c as u32;
    (0x9 <= u && u <= 0xd) || u == 0x20 || u == 0x85 || u == 0xa0 || u == 0x1680 || (0x2000 <= u
        && u <= 0x200a) || u == 0x2028 || u == 0x2029 || u == 0x202f || u == 0x205f || u == 0x3000
}

/// The views of a sequence of character vectors.
pub open spec fn views(v: Seq<Vec<char>>) -> Seq<Seq<char>> {
    v.map_values(|p: Vec<char>| p@)
}

/// `str::split(sep)`: the pieces between occurrences of `sep`, always at
/// least one (the empty text splits into one empty piece).
pub open spec fn split_on(s: Seq<char>, sep: char) -> Seq<Seq<char>>
    decreases s.len(),
{
    if s.len() == 0 {
        seq![Seq::<char>::empty()]
    } else {
        let p = split_on(s.drop_last(), sep);
        if s.last() == sep {
            p.push(Seq::<char>::empty())
        } else {
            p.update(p.len() - 1, p.last().push(s.last()))
        }
    }
}

pub proof fn lemma_split_on_nonempty(s: Seq<char>, sep: char)
    ensures
        split_on(s, sep).len() >= 1,
    decreases s.len(),
{
    if s.len() > 0 {
        lemma_split_on_nonempty(s.drop_last(), sep);
    }
}

/// Splits `v` at every `sep`, as `str::split` does.
pub fn split_char(v: &[char], sep: char) -> (r: Vec<Vec<char>>)
    ensures
        views(r@) == split_on(v@, sep),
{
    let mut pieces: Vec<Vec<char>> = Vec::new();
    let mut cur: Vec<char> = Vec::new();
    let mut i: usize = 0;
    while i < v.len()
        invariant
            i <= v@.len(),
            split_on(v@.take(i as int), sep) == views(pieces@).push(cur@),
        decreases v@.len() - i,
    {
        let c = v[i];
        proof {
            assert(v@.take(i + 1).drop_last() =~= v@.take(i as int));
            lemma_split_on_nonempty(v@.take(i as int), sep);
        }
        if c == sep {
            let done = cur;
            pieces.push(done);
            cur = Vec::new();
            assert(views(pieces@).push(cur@) =~= split_on(v@.take(i as int), sep).push(Seq::empty()));
        } else {
            cur.push(c);
            assert(views(pieces@).push(cur@) =~= split_on(v@.take(i as int), sep).update(
                split_on(v@.take(i as int), sep).len() - 1,
                split_on(v@.take(i as int), sep).last().push(c),
            ));
        }
        i += 1;
    }
    assert(v@.take(v@.len() as int) =~= v@);
    pieces.push(cur);
    assert(views(pieces@) =~= split_on(v@, sep));
    pieces
}

/// A line with one trailing carriage return removed, if it has one.
pub open spec fn strip_cr(l: Seq<char>) -> Seq<char> {
    if l.len() > 0 && l.last() == '\r' {
        l.drop_last()
    } else {
        l
    }
}

/// `str::lines`: lines end at `\n` or `\r\n`; the final line ending is
/// optional, and a `\r` on a last line without `\n` is kept.
pub open spec fn lines_of(s: Seq<char>) -> Seq<Seq<char>> {
    if s.len() == 0 {
        Seq::empty()
    } else {
        let p = split_on(s, '\n');
        if s.last() == '\n' {
            p.drop_last().map_values(|l: Seq<char>| strip_cr(l))
        } else {
            p.drop_last().map_values(|l: Seq<char>| strip_cr(l)).push(p.last())
        }
    }
}

/// Strips one trailing carriage return from `l`.
pub fn strip_cr_vec(l: Vec<char>) -> (r: Vec<char>)
    ensures
        r@ == strip_cr(l@),
{
    let mut l = l;
    let n = l.len();
    if n > 0 && l[n - 1] == '\r' {
        let _ = l.pop();
    }
    l
}

/// Splits `v` into lines, as `str::lines` does.
pub fn lines(v: &[char]) -> (r: Vec<Vec<char>>)
    ensures
        views(r@) == lines_of(v@),
{
    let mut out: Vec<Vec<char>> = Vec::new();
    let mut cur: Vec<char> = Vec::new();
    let mut i: usize = 0;
    proof {
        assert(v@.take(0) =~= Seq::<char>::empty());
    }
    while i < v.len()
        invariant
            i <= v@.len(),
            split_on(v@.take(i as int), '\n').len() >= 1,
            views(out@) == split_on(v@.take(i as int), '\n').drop_last().map_values(
                |l: Seq<char>| strip_cr(l),
            ),
            cur@ == split_on(v@.take(i as int), '\n').last(),
        decreases v@.len() - i,
    {
        let c = v[i];
        let ghost p = split_on(v@.take(i as int), '\n');
        proof {
            assert(v@.take(i + 1).drop_last() =~= v@.take(i as int));
            lemma_split_on_nonempty(v@.take(i + 1), '\n');
        }
        if c == '\n' {
            assert(split_on(v@.take(i + 1), '\n') == p.push(Seq::<char>::empty()));
            assert(p.push(Seq::<char>::empty()).drop_last() =~= p);
            assert(p =~= p.drop_last().push(p.last()));
            let ghost old_out = out@;
            let done = strip_cr_vec(cur);
            out.push(done);
            cur = Vec::new();
            assert(views(out@) =~= views(old_out).push(strip_cr(p.last())));
            assert(p.map_values(|l: Seq<char>| strip_cr(l)) =~= p.drop_last().map_values(
                |l: Seq<char>| strip_cr(l),
            ).push(strip_cr(p.last())));
            assert(views(out@) =~= split_on(v@.take(i + 1), '\n').drop_last().map_values(
                |l: Seq<char>| strip_cr(l),
            ));
        } else {
            cur.push(c);
            assert(split_on(v@.take(i + 1), '\n').drop_last() =~= p.drop_last());
        }
        i += 1;
    }
    assert(v@.take(v@.len() as int) =~= v@);
    if cur.len() > 0 {
        proof {
            assert(v@.len() > 0);
            if v@.last() == '\n' {
                assert(v@.drop_last() =~= v@.take(v@.len() - 1));
            }
        }
        out.push(cur);
        assert(views(out@) =~= lines_of(v@));
    } else {
        proof {
            if v@.len() > 0 {
                if v@.last() != '\n' {
                    assert(v@.drop_last() =~= v@.take(v@.len() - 1));
                    lemma_split_on_nonempty(v@.drop_last(), '\n');
                }
            }
        }
        assert(views(out@) =~= lines_of(v@));
    }
    out
}

/// `s` with its leading whitespace removed.
pub open spec fn trim_start(s: Seq<char>) -> Seq<char>
    decreases s.len(),
{
    if s.len() > 0 && is_ws(s[0]) {
        trim_start(s.drop_first())
    } else {
        s
    }
}

/// `s` with its trailing whitespace removed.
pub open spec fn trim_end(s: Seq<char>) -> Seq<char>
    decreases s.len(),
{
    if s.len() > 0 && is_ws(s.last()) {
        trim_end(s.drop_last())
    } else {
        s
    }
}

/// `str::trim`.
pub open spec fn trim(s: Seq<char>) -> Seq<char> {
    trim_end(trim_start(s))
}

/// `v` without leading and trailing whitespace, as `str::trim` gives.
pub fn trim_chars(v: &[char]) -> (r: Vec<char>)
    ensures
        r@ == trim(v@),
{
    let n = v.len();
    let mut a: usize = 0;
    assert(v@.subrange(0, n as int) =~= v@);
    while a < n && is_whitespace(v[a])
        invariant
            n == v@.len(),
            a <= n,
            trim_start(v@) == trim_start(v@.subrange(a as int, n as int)),
        decreases n - a,
    {
        assert(v@.subrange(a as int, n as int).drop_first() =~= v@.subrange(a + 1, n as int));
        a += 1;
    }
    let ghost ts = v@.subrange(a as int, n as int);
    assert(trim_start(v@) == ts);
    let mut b: usize = n;
    while b > a && is_whitespace(v[b - 1])
        invariant
            n == v@.len(),
            a <= b <= n,
            ts == v@.subrange(a as int, n as int),
            trim_end(ts) == trim_end(v@.subrange(a as int, b as int)),
        decreases b - a,
    {
        assert(v@.subrange(a as int, b as int).drop_last() =~= v@.subrange(a as int, b - 1));
        b -= 1;
    }
    let mut r: Vec<char> = Vec::new();
    let mut k: usize = a;
    while k < b
        invariant
            a <= k <= b <= n,
            n == v@.len(),
            r@ == v@.subrange(a as int, k as int),
        decreases b - k,
    {
        r.push(v[k]);
        k += 1;
        assert(r@ =~= v@.subrange(a as int, k as int));
    }
    r
}

/// `str::split_whitespace`: the maximal runs of non-whitespace characters.
pub open spec fn words(s: Seq<char>) -> Seq<Seq<char>>
    decreases s.len(),
{
    if s.len() == 0 {
        Seq::empty()
    } else {
        let p = words(s.drop_last());
        let c = s.last();
        if is_ws(c) {
            p
        } else if s.len() >= 2 && !is_ws(s[s.len() - 2]) {
            p.update(p.len() - 1, p.last().push(c))
        } else {
            p.push(seq![c])
        }
    }
}

pub proof fn lemma_words_open(s: Seq<char>)
    requires
        s.len() > 0,
        !is_ws(s.last()),
    ensures
        words(s).len() >= 1,
    decreases s.len(),
{
    if s.len() >= 2 && !is_ws(s[s.len() - 2]) {
        assert(s.drop_last().last() == s[s.len() - 2]);
        lemma_words_open(s.drop_last());
    }
}

/// Splits `v` at runs of whitespace, as `str::split_whitespace` does.
pub fn split_words(v: &[char]) -> (r: Vec<Vec<char>>)
    ensures
        views(r@) == words(v@),
{
    let mut out: Vec<Vec<char>> = Vec::new();
    let mut cur: Vec<char> = Vec::new();
    let mut i: usize = 0;
    assert(v@.take(0) =~= Seq::<char>::empty());
    while i < v.len()
        invariant
            i <= v@.len(),
            cur@.len() > 0 <==> (i > 0 && !is_ws(v@[i - 1])),
            cur@.len() == 0 ==> views(out@) == words(v@.take(i as int)),
            cur@.len() > 0 ==> views(out@).push(cur@) == words(v@.take(i as int)),
        decreases v@.len() - i,
    {
        let c = v[i];
        let ghost pre = v@.take(i as int);
        let ghost post = v@.take(i + 1);
        assert(post.drop_last() =~= pre);
        assert(post.last() == c);
        if is_whitespace(c) {
            if cur.len() > 0 {
                let ghost old_out = out@;
                let done = cur;
                out.push(done);
                cur = Vec::new();
                assert(views(out@) =~= views(old_out).push(done@));
            }
        } else {
            if cur.len() > 0 {
                assert(post[post.len() - 2] == v@[i - 1]);
                let ghost w = words(pre);
                cur.push(c);
                assert(views(out@).push(cur@) =~= w.update(w.len() - 1, w.last().push(c)));
            } else {
                cur.push(c);
                assert(cur@ =~= seq![c]);
            }
        }
        i += 1;
    }
    assert(v@.take(v@.len() as int) =~= v@);
    if cur.len() > 0 {
        let ghost old_out = out@;
        let done = cur;
        out.push(done);
        assert(views(out@) =~= views(old_out).push(done@));
    }
    out
}

/// True for the ASCII digits `0`..`9`.
pub open spec fn is_digit(c: char) -> bool {
    '0' <= c <= '9'
}

/// The value of an ASCII digit.
pub open spec fn digit_val(c: char) -> nat {
    ((c as u32) - ('0' as u32)) as nat
}

/// Every character of `s` is an ASCII digit.
pub open spec fn all_digits(s: Seq<char>) -> bool {
    forall|i: int| 0 <= i < s.len() ==> is_digit(#[trigger] s[i])
}

/// The number the decimal digits `s` spell.
pub open spec fn digits_value(s: Seq<char>) -> nat
    decreases s.len(),
{
    if s.len() == 0 {
        0
    } else {
        digits_value(s.drop_last()) * 10 + digit_val(s.last())
    }
}

/// The natural number that `str::parse` reads from `s` for an unsigned
/// integer type before its range check: an optional `+`, then one or more
/// ASCII digits.
pub open spec fn parse_nat(s: Seq<char>) -> Option<nat> {
    let body = if s.len() > 0 && s[0] == '+' {
        s.drop_first()
    } else {
        s
    };
    if body.len() > 0 && all_digits(body) {
        Some(digits_value(body))
    } else {
        None
    }
}

/// The integer that `str::parse` reads from `s` for a signed integer type
/// before its range check: an optional `+` or `-`, then one or more ASCII
/// digits.
pub open spec fn parse_int(s: Seq<char>) -> Option<int> {
    if s.len() > 0 && s[0] == '-' {
        let body = s.drop_first();
        if body.len() > 0 && all_digits(body) {
            Some(-digits_value(body))
        } else {
            None
        }
    } else {
        match parse_nat(s) {
            Some(n) => Some(n as int),
            None => None,
        }
    }
}

/// `str::parse::<u64>`.
pub open spec fn parse_u64(s: Seq<char>) -> Option<u64> {
    match parse_nat(s) {
        Some(n) => if n <= u64::MAX {
            Some(n as u64)
        } else {
            None
        },
        None => None,
    }
}

/// `str::parse::<u32>`.
pub open spec fn parse_u32(s: Seq<char>) -> Option<u32> {
    match parse_nat(s) {
        Some(n) => if n <= u32::MAX {
            Some(n as u32)
        } else {
            None
        },
        None => None,
    }
}

/// `str::parse::<i32>`.
pub open spec fn parse_i32(s: Seq<char>) -> Option<i32> {
    match parse_int(s) {
        Some(n) => if i32::MIN <= n <= i32::MAX {
            Some(n as i32)
        } else {
            None
        },
        None => None,
    }
}

/// The value of the digits `v[from..]`, or `None` when it exceeds `max`.
fn digits_bounded(v: &[char], from: usize, max: u64) -> (r: Option<u64>)
    requires
        from <= v@.len(),
        all_digits(v@.subrange(from as int, v@.len() as int)),
    ensures
        r is Some <==> digits_value(v@.subrange(from as int, v@.len() as int)) <= max,
        r matches Some(x) ==> x == digits_value(v@.subrange(from as int, v@.len() as int)),
{
    let n = v.len();
    let mut acc: u64 = 0;
    let mut over = false;
    let mut i = from;
    assert(v@.subrange(from as int, from as int) =~= Seq::<char>::empty());
    while i < n
        invariant
            n == v@.len(),
            from <= i <= n,
            all_digits(v@.subrange(from as int, n as int)),
            !over ==> acc == digits_value(v@.subrange(from as int, i as int)),
            !over ==> acc <= max,
            over ==> digits_value(v@.subrange(from as int, i as int)) > max,
        decreases n - i,
    {
        let ghost pre = v@.subrange(from as int, i as int);
        let ghost post = v@.subrange(from as int, i + 1);
        assert(post.drop_last() =~= pre);
        assert(v@.subrange(from as int, n as int)[i - from] == v@[i as int]);
        let d = (v[i] as u32 - '0' as u32) as u64;
        assert(d == digit_val(post.last()));
        if !over {
            if d > max || acc > (max - d) / 10 {
                assert(acc * 10 + d > max) by (nonlinear_arith)
                    requires
                        d > max || acc > (max - d) / 10,
                        d <= 9,
                ;
                over = true;
            } else {
                assert(acc * 10 + d <= max) by (nonlinear_arith)
                    requires
                        d <= max,
                        acc <= (max - d) / 10,
                ;
                acc = acc * 10 + d;
            }
        }
        i += 1;
    }
    assert(v@.subrange(from as int, n as int) == v@.subrange(from as int, i as int));
    if over {
        None
    } else {
        Some(acc)
    }
}

/// Whether every character of `v[from..]` is an ASCII digit.
fn digits_from(v: &[char], from: usize) -> (b: bool)
    requires
        from <= v@.len(),
    ensures
        b == all_digits(v@.subrange(from as int, v@.len() as int)),
{
    let n = v.len();
    let mut i = from;
    while i < n
        invariant
            n == v@.len(),
            from <= i <= n,
            forall|k: int| from <= k < i ==> is_digit(#[trigger] v@[k]),
        decreases n - i,
    {
        if !('0' <= v[i] && v[i] <= '9') {
            assert(!is_digit(v@.subrange(from as int, n as int)[i - from]));
            return false;
        }
        i += 1;
    }
    assert forall|k: int| 0 <= k < v@.subrange(from as int, n as int).len() implies is_digit(
        #[trigger] v@.subrange(from as int, n as int)[k],
    ) by {
        assert(v@.subrange(from as int, n as int)[k] == v@[from + k]);
    }
    true
}

/// `str::parse` for an unsigned integer no larger than `max`.
pub fn parse_nat_upto(v: &[char], max: u64) -> (r: Option<u64>)
    ensures
        r == (match parse_nat(v@) {
            Some(n) => if n <= max {
                Some(n as u64)
            } else {
                None
            },
            None => None,
        }),
{
    let n = v.len();
    let from: usize = if n > 0 && v[0] == '+' {
        1
    } else {
        0
    };
    assert(from == 1 ==> v@.drop_first() =~= v@.subrange(1, n as int));
    assert(from == 0 ==> v@ =~= v@.subrange(0, n as int));
    if from >= n || !digits_from(v, from) {
        return None;
    }
    digits_bounded(v, from, max)
}

/// `str::parse::<u64>`.
pub fn parse_u64_chars(v: &[char]) -> (r: Option<u64>)
    ensures
        r == parse_u64(v@),
{
    parse_nat_upto(v, u64::MAX)
}

/// `str::parse::<u32>`.
pub fn parse_u32_chars(v: &[char]) -> (r: Option<u32>)
    ensures
        r == parse_u32(v@),
{
    match parse_nat_upto(v, u32::MAX as u64) {
        Some(x) => Some(x as u32),
        None => None,
    }
}

/// `str::parse::<i32>`.
pub fn parse_i32_chars(v: &[char]) -> (r: Option<i32>)
    ensures
        r == parse_i32(v@),
{
    let n = v.len();
    if n > 0 && v[0] == '-' {
        assert(v@.drop_first() =~= v@.subrange(1, n as int));
        if n < 2 || !digits_from(v, 1) {
            return None;
        }
        match digits_bounded(v, 1, 0x8000_0000u64) {
            Some(x) => Some((0 - (x as i64)) as i32),
            None => None,
        }
    } else {
        match parse_nat_upto(v, i32::MAX as u64) {
            Some(x) => Some(x as i32),
            None => None,
        }
    }
}

/// The character of a decimal digit `d < 10`.
pub open spec fn digit_char(d: nat) -> char {
    ((d + ('0' as u32)) as u32) as char
}

/// The decimal representation of `n`, as `{}` formats it.
pub open spec fn decimal(n: nat) -> Seq<char>
    decreases n,
{
    if n < 10 {
        seq![digit_char(n)]
    } else {
        decimal(n / 10).push(digit_char(n % 10))
    }
}

/// The decimal representation of `i`, with a leading `-` when negative.
pub open spec fn signed_decimal(i: int) -> Seq<char> {
    if i < 0 {
        seq!['-'] + decimal((-i) as nat)
    } else {
        decimal(i as nat)
    }
}

/// The character of the decimal digit `d`.
fn digit_to_char(d: u64) -> (c: char)
    requires
        d < 10,
    ensures
        c == digit_char(d as nat),
{
    match d {
        0 => '0',
        1 => '1',
        2 => '2',
        3 => '3',
        4 => '4',
        5 => '5',
        6 => '6',
        7 => '7',
        8 => '8',
        _ => '9',
    }
}

/// Appends the decimal representation of `n` to `out`.
pub fn push_decimal(out: &mut Vec<char>, n: u64)
    ensures
        final(out)@ == old(out)@ + decimal(n as nat),
    decreases n,
{
    if n >= 10 {
        push_decimal(out, n / 10);
    }
    let c = digit_to_char(n % 10);
    out.push(c);
    assert(final(out)@ =~= old(out)@ + decimal(n as nat));
}

/// The index of the first `c` in `s`.
pub open spec fn find_char(s: Seq<char>, c: char) -> Option<nat>
    decreases s.len(),
{
    if s.len() == 0 {
        None
    } else if s[0] == c {
        Some(0)
    } else {
        match find_char(s.drop_first(), c) {
            Some(k) => Some(k + 1),
            None => None,
        }
    }
}

pub proof fn lemma_find_char(s: Seq<char>, c: char)
    ensures
        find_char(s, c) matches Some(k) ==> k < s.len() && s[k as int] == c && forall|j: int|
            0 <= j < k ==> s[j] != c,
        find_char(s, c) is None ==> forall|j: int| 0 <= j < s.len() ==> s[j] != c,
    decreases s.len(),
{
    if s.len() > 0 {
        lemma_find_char(s.drop_first(), c);
        if s[0] != c {
            assert forall|j: int| 1 <= j < s.len() implies s[j] == s.drop_first()[j - 1] by {}
        }
    }
}

/// The index of the first `c` in `v` at or after `from`.
pub fn find_from(v: &[char], from: usize, c: char) -> (r: Option<usize>)
    requires
        from <= v@.len(),
    ensures
        r == (match find_char(v@.subrange(from as int, v@.len() as int), c) {
            Some(k) => Some((k + from) as usize),
            None => None,
        }),
        r matches Some(j) ==> from <= j < v@.len() && v@[j as int] == c,
{
    let n = v.len();
    let mut i = from;
    while i < n
        invariant
            n == v@.len(),
            from <= i <= n,
            find_char(v@.subrange(from as int, n as int), c) == (match find_char(
                v@.subrange(i as int, n as int),
                c,
            ) {
                Some(k) => Some((k + i - from) as nat),
                None => None,
            }),
        decreases n - i,
    {
        assert(v@.subrange(i as int, n as int).drop_first() =~= v@.subrange(i + 1, n as int));
        if v[i] == c {
            return Some(i);
        }
        i += 1;
    }
    None
}

/// `a` sorts before or equal to `b` in the order `String`'s `Ord` uses:
/// lexicographic by code point (the same as by UTF-8 bytes).
pub open spec fn lex_le(a: Seq<char>, b: Seq<char>) -> bool
    decreases a.len(),
{
    if a.len() == 0 {
        true
    } else if b.len() == 0 {
        false
    } else if a[0] != b[0] {
        (a[0] as int) < (b[0] as int)
    } else {
        lex_le(a.drop_first(), b.drop_first())
    }
}

pub proof fn lemma_lex_total(a: Seq<char>, b: Seq<char>)
    ensures
        lex_le(a, b) || lex_le(b, a),
    decreases a.len(),
{
    if a.len() > 0 && b.len() > 0 && a[0] == b[0] {
        lemma_lex_total(a.drop_first(), b.drop_first());
    }
}

pub proof fn lemma_lex_trans(a: Seq<char>, b: Seq<char>, c: Seq<char>)
    requires
        lex_le(a, b),
        lex_le(b, c),
    ensures
        lex_le(a, c),
    decreases a.len(),
{
    if a.len() > 0 && b.len() > 0 && c.len() > 0 && a[0] == b[0] && b[0] == c[0] {
        lemma_lex_trans(a.drop_first(), b.drop_first(), c.drop_first());
    }
}

pub proof fn lemma_lex_antisym(a: Seq<char>, b: Seq<char>)
    requires
        lex_le(a, b),
        lex_le(b, a),
    ensures
        a == b,
    decreases a.len(),
{
    if a.len() > 0 && b.len() > 0 {
        lemma_lex_antisym(a.drop_first(), b.drop_first());
        assert(a =~= seq![a[0]] + a.drop_first());
        assert(b =~= seq![b[0]] + b.drop_first());
    } else {
        assert(a =~= b);
    }
}

/// Compares `a` and `b` as `String`'s `Ord` does, answering `a <= b`.
pub fn lex_le_chars(a: &[char], b: &[char]) -> (r: bool)
    ensures
        r == lex_le(a@, b@),
{
    let mut i: usize = 0;
    assert(a@.skip(0) =~= a@);
    assert(b@.skip(0) =~= b@);
    while i < a.len() && i < b.len() && a[i] == b[i]
        invariant
            i <= a@.len(),
            i <= b@.len(),
            lex_le(a@, b@) == lex_le(a@.skip(i as int), b@.skip(i as int)),
        decreases a@.len() - i,
    {
        assert(a@.skip(i as int).drop_first() =~= a@.skip(i + 1));
        assert(b@.skip(i as int).drop_first() =~= b@.skip(i + 1));
        i += 1;
    }
    if i == a.len() {
        true
    } else if i == b.len() {
        false
    } else {
        assert(a@.skip(i as int)[0] == a@[i as int]);
        assert(b@.skip(i as int)[0] == b@[i as int]);
        a[i] < b[i]
    }
}

/// Whether `a` and `b` hold the same characters.
pub fn eq_chars(a: &[char], b: &[char]) -> (r: bool)
    ensures
        r == (a@ == b@),
{
    if a.len() != b.len() {
        return false;
    }
    let mut i: usize = 0;
    while i < a.len()
        invariant
            a@.len() == b@.len(),
            i <= a@.len(),
            forall|k: int| 0 <= k < i ==> a@[k] == b@[k],
        decreases a@.len() - i,
    {
        if a[i] != b[i] {
            return false;
        }
        i += 1;
    }
    assert(a@ =~= b@);
    true
}

/// `s` begins with `p`.
pub open spec fn has_prefix(s: Seq<char>, p: Seq<char>) -> bool {
    p.len() <= s.len() && s.take(p.len() as int) == p
}

/// Whether `v` begins with `p`.
pub fn starts_with(v: &[char], p: &[char]) -> (r: bool)
    ensures
        r == has_prefix(v@, p@),
{
    if p.len() > v.len() {
        return false;
    }
    let mut i: usize = 0;
    while i < p.len()
        invariant
            p@.len() <= v@.len(),
            i <= p@.len(),
            forall|k: int| 0 <= k < i ==> v@[k] == p@[k],
        decreases p@.len() - i,
    {
        if v[i] != p[i] {
            assert(v@.take(p@.len() as int)[i as int] != p@[i as int]);
            return false;
        }
        i += 1;
    }
    assert(v@.take(p@.len() as int) =~= p@);
    true
}

/// The characters `v[from..to]`.
pub fn sub_vec(v: &[char], from: usize, to: usize) -> (r: Vec<char>)
    requires
        from <= to <= v@.len(),
    ensures
        r@ == v@.subrange(from as int, to as int),
{
    let mut r: Vec<char> = Vec::with_capacity(to - from);
    let mut k = from;
    while k < to
        invariant
            from <= k <= to <= v@.len(),
            r@ == v@.subrange(from as int, k as int),
        decreases to - k,
    {
        r.push(v[k]);
        k += 1;
        assert(r@ =~= v@.subrange(from as int, k as int));
    }
    r
}

/// Appends the characters of `s` to `out`.
pub fn push_str(out: &mut Vec<char>, s: &str)
    ensures
        final(out)@ == old(out)@ + s@,
{
    let mut extra = chars_of(s);
    out.append(&mut extra);
}

/// Appends the decimal representation of `i`, with a leading `-` when
/// negative.
pub fn push_signed_decimal(out: &mut Vec<char>, i: i64)
    ensures
        final(out)@ == old(out)@ + signed_decimal(i as int),
{
    if i < 0 {
        out.push('-');
        let m: u64 = if i == i64::MIN {
            0x8000_0000_0000_0000u64
        } else {
            (0 - i) as u64
        };
        let ghost mid = out@;
        push_decimal(out, m);
        assert(final(out)@ =~= old(out)@ + signed_decimal(i as int));
    } else {
        push_decimal(out, i as u64);
    }
}

/// The pieces `ws` joined with `sep` between neighbours.
pub open spec fn join(ws: Seq<Seq<char>>, sep: Seq<char>) -> Seq<char>
    decreases ws.len(),
{
    if ws.len() == 0 {
        Seq::empty()
    } else if ws.len() == 1 {
        ws[0]
    } else {
        join(ws.drop_last(), sep) + sep + ws.last()
    }
}

/// The pieces `pieces[from..]` joined with `sep` between neighbours.
pub fn joined(pieces: &Vec<Vec<char>>, from: usize, sep: &[char]) -> (r: Vec<char>)
    requires
        from <= pieces@.len(),
    ensures
        r@ == join(views(pieces@).skip(from as int), sep@),
{
    let mut r: Vec<char> = Vec::new();
    let mut i = from;
    assert(views(pieces@).skip(from as int).take(0) =~= Seq::<Seq<char>>::empty());
    while i < pieces.len()
        invariant
            from <= i <= pieces@.len(),
            r@ == join(views(pieces@).skip(from as int).take(i - from), sep@),
        decreases pieces@.len() - i,
    {
        let ghost ws = views(pieces@).skip(from as int);
        assert(ws.take(i + 1 - from).drop_last() =~= ws.take(i - from));
        assert(ws.take(i + 1 - from).last() == pieces@[i as int]@);
        if i > from {
            let mut k: usize = 0;
            while k < sep.len()
                invariant
                    k <= sep@.len(),
                    r@ == join(ws.take(i - from), sep@) + sep@.take(k as int),
                decreases sep@.len() - k,
            {
                r.push(sep[k]);
                k += 1;
                assert(r@ =~= join(ws.take(i - from), sep@) + sep@.take(k as int));
            }
            assert(sep@.take(sep@.len() as int) =~= sep@);
        } else {
            assert(r@ =~= Seq::<char>::empty());
        }
        let ghost before = r@;
        let mut k: usize = 0;
        while k < pieces[i].len()
            invariant
                i < pieces@.len(),
                k <= pieces@[i as int]@.len(),
                r@ == before + pieces@[i as int]@.take(k as int),
            decreases pieces@[i as int]@.len() - k,
        {
            r.push(pieces[i][k]);
            k += 1;
            assert(r@ =~= before + pieces@[i as int]@.take(k as int));
        }
        assert(pieces@[i as int]@.take(pieces@[i as int]@.len() as int) =~= pieces@[i as int]@);
        i += 1;
        if i - 1 == from {
            assert(r@ =~= join(ws.take(i - from), sep@));
        }
    }
    assert(views(pieces@).skip(from as int).take(pieces@.len() - from) =~= views(pieces@).skip(from as int));
    r
}

/// `s` with the ASCII capitals lowered, as `str::to_ascii_lowercase`
/// gives.
pub open spec fn ascii_lower(s: Seq<char>) -> Seq<char> {
    s.map_values(|c: char| if 'A' <= c <= 'Z' {
        ((c as u32) + 32) as char
    } else {
        c
    })
}

/// `v` with the ASCII capitals lowered.
pub fn lower_ascii(v: &[char]) -> (r: Vec<char>)
    ensures
        r@ == ascii_lower(v@),
{
    let mut r: Vec<char> = Vec::with_capacity(v.len());
    let mut i: usize = 0;
    while i < v.len()
        invariant
            i <= v@.len(),
            r@ == ascii_lower(v@.take(i as int)),
        decreases v@.len() - i,
    {
        let c = v[i];
        let d = if 'A' <= c && c <= 'Z' {
            match c {
                'A' => 'a',
                'B' => 'b',
                'C' => 'c',
                'D' => 'd',
                'E' => 'e',
                'F' => 'f',
                'G' => 'g',
                'H' => 'h',
                'I' => 'i',
                'J' => 'j',
                'K' => 'k',
                'L' => 'l',
                'M' => 'm',
                'N' => 'n',
                'O' => 'o',
                'P' => 'p',
                'Q' => 'q',
                'R' => 'r',
                'S' => 's',
                'T' => 't',
                'U' => 'u',
                'V' => 'v',
                'W' => 'w',
                'X' => 'x',
                'Y' => 'y',
                _ => 'z',
            }
        } else {
            c
        };
        r.push(d);
        i += 1;
        assert(r@ =~= ascii_lower(v@.take(i as int)));
    }
    assert(v@.take(v@.len() as int) =~= v@);
    r
}


/// The index of the first occurrence of `p` in `s`.
pub open spec fn find_sub(s: Seq<char>, p: Seq<char>) -> Option<nat>
    decreases s.len(),
{
    if has_prefix(s, p) {
        Some(0)
    } else if s.len() == 0 {
        None
    } else {
        match find_sub(s.drop_first(), p) {
            Some(k) => Some(k + 1),
            None => None,
        }
    }
}

pub proof fn lemma_find_sub(s: Seq<char>, p: Seq<char>)
    ensures
        find_sub(s, p) matches Some(k) ==> k + p.len() <= s.len() && has_prefix(s.skip(k as int), p),
    decreases s.len(),
{
    if !has_prefix(s, p) && s.len() > 0 {
        lemma_find_sub(s.drop_first(), p);
        if let Some(k) = find_sub(s.drop_first(), p) {
            assert(s.drop_first().skip(k as int) =~= s.skip(k + 1 as int));
        }
    } else if has_prefix(s, p) {
        assert(s.skip(0) =~= s);
    }
}

/// Whether `p` occurs in `v` starting at `at`.
pub fn matches_at(v: &[char], at: usize, p: &[char]) -> (r: bool)
    requires
        at <= v@.len(),
    ensures
        r == has_prefix(v@.skip(at as int), p@),
{
    let n = v.len();
    if n - at < p.len() {
        return false;
    }
    let mut k: usize = 0;
    while k < p.len()
        invariant
            n == v@.len(),
            at <= v@.len(),
            p@.len() <= v@.len() - at,
            at + p@.len() <= v@.len(),
            k <= p@.len(),
            forall|j: int| 0 <= j < k ==> v@[at + j] == p@[j],
        decreases p@.len() - k,
    {
        if v[at + k] != p[k] {
            assert(v@.skip(at as int).take(p@.len() as int)[k as int] != p@[k as int]);
            return false;
        }
        k += 1;
    }
    assert(v@.skip(at as int).take(p@.len() as int) =~= p@);
    true
}

/// The index of the first occurrence of `p` in `v` at or after `from`.
pub fn find_sub_from(v: &[char], from: usize, p: &[char]) -> (r: Option<usize>)
    requires
        from <= v@.len(),
    ensures
        r == (match find_sub(v@.skip(from as int), p@) {
            Some(k) => Some((k + from) as usize),
            None => None,
        }),
        find_sub(v@.skip(from as int), p@) matches Some(k) ==> k + from + p@.len() <= v@.len(),
{
    proof {
        lemma_find_sub(v@.skip(from as int), p@);
    }
    let n = v.len();
    let mut i = from;
    assert(v@.skip(from as int) =~= v@.skip(from as int));
    while i <= n
        invariant
            n == v@.len(),
            from <= i <= n,
            find_sub(v@.skip(from as int), p@) == (match find_sub(v@.skip(i as int), p@) {
                Some(k) => Some((k + i - from) as nat),
                None => None,
            }),
        decreases n + 1 - i,
    {
        if matches_at(v, i, p) {
            return Some(i);
        }
        if i == n {
            assert(v@.skip(i as int).len() == 0);
            return None;
        }
        assert(v@.skip(i as int).drop_first() =~= v@.skip(i + 1));
        i += 1;
    }
    None
}

/// `s` ends with `p`.
pub open spec fn has_suffix(s: Seq<char>, p: Seq<char>) -> bool {
    p.len() <= s.len() && s.skip(s.len() - p.len()) == p
}

/// Whether `v` ends with `p`.
pub fn ends_with(v: &[char], p: &[char]) -> (r: bool)
    ensures
        r == has_suffix(v@, p@),
{
    if p.len() > v.len() {
        return false;
    }
    let at = v.len() - p.len();
    let r = matches_at(v, at, p);
    assert(v@.skip(at as int).take(p@.len() as int) =~= v@.skip(at as int));
    r
}

} // verus!
