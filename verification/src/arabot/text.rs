use vstd::prelude::*;

verus! {

/// The characters of `s`, in order.
pub fn chars_of(s: &str) -> (r: Vec<char>)
    ensures
        r@ == s@,
{
    let mut r: Vec<char> = Vec::new();
    for c in it: s.chars()
        invariant
            r@ == it.seq().take(it.index() as int),
    {
        r.push(c);
    }
    r
}

/// `String::push`: claims that the string afterwards is the old one with `ch` added at its end
/// (what std documents: "Appends the given char to the end of this String").
pub assume_specification[ String::push ](s: &mut String, ch: char)
    ensures
        final(s)@ == old(s)@.push(ch),
;

/// The string made of `v[from..to]`.
pub fn string_of(v: &Vec<char>, from: usize, to: usize) -> (r: String)
    requires
        from <= to <= v@.len(),
    ensures
        r@ == v@.subrange(from as int, to as int),
{
    let mut r = String::new();
    let mut i = from;
    while i < to
        invariant
            from <= i <= to <= v@.len(),
            r@ == v@.subrange(from as int, i as int),
        decreases to - i,
    {
        r.push(v[i]);
        assert(v@.subrange(from as int, i + 1) == v@.subrange(from as int, i as int).push(v@[i as int]));
        i = i + 1;
    }
    r
}

/// Whether `c` has the Unicode `White_Space` property (what `char::is_whitespace` tests).
pub open spec fn is_white(c: char) -> bool {
    let u = c as u32;
    ||| 0x09 <= u <= 0x0d
    ||| u == 0x20
    ||| u == 0x85
    ||| u == 0xa0
    ||| u == 0x1680
    ||| 0x2000 <= u <= 0x200a
    ||| u == 0x2028
    ||| u == 0x2029
    ||| u == 0x202f
    ||| u == 0x205f
    ||| u == 0x3000
}

pub fn is_white_char(c: char) -> (r: bool)
    ensures
        r == is_white(c),
{
    let u = c as u32;
    (0x09 <= u && u <= 0x0d) || u == 0x20 || u == 0x85 || u == 0xa0 || u == 0x1680 || (0x2000 <= u
        && u <= 0x200a) || u == 0x2028 || u == 0x2029 || u == 0x202f || u == 0x205f || u == 0x3000
}

/// `s` without its leading white space.
pub open spec fn trim_start(s: Seq<char>) -> Seq<char>
    decreases s.len(),
{
    if s.len() > 0 && is_white(s[0]) {
        trim_start(s.drop_first())
    } else {
        s
    }
}

/// `s` without its trailing white space.
pub open spec fn trim_end(s: Seq<char>) -> Seq<char>
    decreases s.len(),
{
    if s.len() > 0 && is_white(s.last()) {
        trim_end(s.drop_last())
    } else {
        s
    }
}

/// `s` without leading and trailing white space (what `str::trim` returns).
pub open spec fn trim(s: Seq<char>) -> Seq<char> {
    trim_end(trim_start(s))
}

/// Returns `s` with leading and trailing white space removed.
pub fn trimmed(s: &str) -> (r: String)
    ensures
        r@ == trim(s@),
{
    let v = chars_of(s);
    let n = v.len();
    let mut i: usize = 0;
    assert(v@.subrange(0, n as int) == v@);
    while i < n && is_white_char(v[i])
        invariant
            i <= n == v@.len(),
            trim_start(v@) == trim_start(v@.subrange(i as int, n as int)),
        decreases n - i,
    {
        assert(v@.subrange(i as int, n as int).drop_first() == v@.subrange(i + 1, n as int));
        i = i + 1;
    }
    assert(trim_start(v@.subrange(i as int, n as int)) == v@.subrange(i as int, n as int));
    let mut j: usize = n;
    while j > i && is_white_char(v[j - 1])
        invariant
            i <= j <= n == v@.len(),
            trim(v@) == trim_end(v@.subrange(i as int, j as int)),
        decreases j,
    {
        assert(v@.subrange(i as int, j as int).drop_last() == v@.subrange(i as int, j - 1));
        j = j - 1;
    }
    assert(trim_end(v@.subrange(i as int, j as int)) == v@.subrange(i as int, j as int));
    string_of(&v, i, j)
}

/// The pieces of `s` between occurrences of `sep`, with `cur` put in front of the first piece.
pub open spec fn split_from(s: Seq<char>, sep: char, cur: Seq<char>) -> Seq<Seq<char>>
    decreases s.len(),
{
    if s.len() == 0 {
        seq![cur]
    } else if s[0] == sep {
        seq![cur] + split_from(s.drop_first(), sep, Seq::empty())
    } else {
        split_from(s.drop_first(), sep, cur.push(s[0]))
    }
}

/// The pieces of `s` between occurrences of `sep` (what `str::split` yields for a `char`).
pub open spec fn split(s: Seq<char>, sep: char) -> Seq<Seq<char>> {
    split_from(s, sep, Seq::empty())
}

pub open spec fn views_of(v: Seq<Vec<char>>) -> Seq<Seq<char>> {
    v.map_values(|p: Vec<char>| p@)
}

/// Splits `v` at each occurrence of `sep`.
pub fn split_chars(v: &Vec<char>, sep: char) -> (r: Vec<Vec<char>>)
    ensures
        views_of(r@) == split(v@, sep),
{
    let n = v.len();
    let mut parts: Vec<Vec<char>> = Vec::new();
    let mut cur: Vec<char> = Vec::new();
    let mut i: usize = 0;
    assert(v@.subrange(0, n as int) == v@);
    while i < n
        invariant
            i <= n == v@.len(),
            views_of(parts@) + split_from(v@.subrange(i as int, n as int), sep, cur@) == split(
                v@,
                sep,
            ),
        decreases n - i,
    {
        let ghost rest = v@.subrange(i as int, n as int);
        assert(rest.drop_first() == v@.subrange(i + 1, n as int));
        if v[i] == sep {
            let ghost old_parts = parts@;
            parts.push(cur);
            assert(views_of(parts@) == views_of(old_parts) + seq![cur@]);
            cur = Vec::new();
        } else {
            cur.push(v[i]);
        }
        i = i + 1;
    }
    let ghost old_parts = parts@;
    parts.push(cur);
    assert(views_of(parts@) == views_of(old_parts) + seq![cur@]);
    parts
}

pub open spec fn is_digit(c: char) -> bool {
    '0' <= c <= '9'
}

pub open spec fn digit_value(c: char) -> nat {
    (c as int - '0' as int) as nat
}

/// The number that the decimal digits `d` write.
pub open spec fn digits_value(d: Seq<char>) -> nat
    decreases d.len(),
{
    if d.len() == 0 {
        0
    } else {
        digits_value(d.drop_last()) * 10 + digit_value(d.last())
    }
}

pub open spec fn all_digits(d: Seq<char>) -> bool {
    forall|i: int| 0 <= i < d.len() ==> is_digit(#[trigger] d[i])
}

/// `s` without one leading `+`.
pub open spec fn unsigned_digits(s: Seq<char>) -> Seq<char> {
    if s.len() > 0 && s[0] == '+' {
        s.drop_first()
    } else {
        s
    }
}

/// What `str::parse::<u64>` gives for `s`: an optional `+` and at least one ASCII digit,
/// whose value fits in a `u64`.
pub open spec fn parse_u64(s: Seq<char>) -> Option<u64> {
    let d = unsigned_digits(s);
    if d.len() > 0 && all_digits(d) && digits_value(d) <= u64::MAX {
        Some(digits_value(d) as u64)
    } else {
        None
    }
}

proof fn lemma_digits_prefix_le(d: Seq<char>, k: int)
    requires
        0 <= k <= d.len(),
    ensures
        digits_value(d.subrange(0, k)) <= digits_value(d),
    decreases d.len() - k,
{
    if k < d.len() {
        lemma_digits_prefix_le(d, k + 1);
        assert(d.subrange(0, k + 1).drop_last() == d.subrange(0, k));
    } else {
        assert(d.subrange(0, k) == d);
    }
}

/// Parses `v` as `str::parse::<u64>` does.
pub fn parse_u64_chars(v: &Vec<char>) -> (r: Option<u64>)
    ensures
        r == parse_u64(v@),
{
    let n = v.len();
    let start: usize = if n > 0 && v[0] == '+' {
        1
    } else {
        0
    };
    let ghost d = unsigned_digits(v@);
    assert(d == v@.subrange(start as int, n as int));
    if start == n {
        return None;
    }
    let mut acc: u64 = 0;
    let mut i: usize = start;
    while i < n
        invariant
            start <= i <= n == v@.len(),
            d == v@.subrange(start as int, n as int),
            d == unsigned_digits(v@),
            all_digits(d.subrange(0, i - start)),
            acc == digits_value(d.subrange(0, i - start)),
        decreases n - i,
    {
        let c = v[i];
        assert(d.subrange(0, i - start + 1).drop_last() == d.subrange(0, i - start));
        assert(d.subrange(0, i - start + 1).last() == c);
        if !('0' <= c && c <= '9') {
            assert(!is_digit(d[i - start]));
            assert(!all_digits(d));
            return None;
        }
        let dv = (c as u32 - '0' as u32) as u64;
        assert(dv == digit_value(c));
        let next = match acc.checked_mul(10) {
            Some(m) => m.checked_add(dv),
            None => None,
        };
        match next {
            Some(x) => {
                acc = x;
            },
            None => {
                proof {
                    lemma_digits_prefix_le(d, i - start + 1);
                    assert(digits_value(d.subrange(0, i - start + 1)) == acc * 10 + dv);
                    assert(digits_value(d) > u64::MAX);
                }
                return None;
            },
        }
        assert(all_digits(d.subrange(0, i - start + 1))) by {
            assert forall|k: int| 0 <= k < i - start + 1 implies is_digit(
                #[trigger] d.subrange(0, i - start + 1)[k],
            ) by {
                if k < i - start {
                    assert(d.subrange(0, i - start + 1)[k] == d.subrange(0, i - start)[k]);
                }
            }
        }
        i = i + 1;
    }
    assert(d.subrange(0, n - start) == d);
    Some(acc)
}

/// Sixty to the power `i`.
pub open spec fn pow60(i: nat) -> nat
    decreases i,
{
    if i == 0 {
        1
    } else {
        60 * pow60((i - 1) as nat)
    }
}

proof fn lemma_pow60_large(i: nat)
    requires
        i >= 11,
    ensures
        pow60(i) > u64::MAX,
    decreases i,
{
    if i > 11 {
        lemma_pow60_large((i - 1) as nat);
    } else {
        reveal_with_fuel(pow60, 12);
    }
}

proof fn lemma_pow60_fits(i: nat)
    requires
        i <= 10,
    ensures
        pow60(i) <= u64::MAX,
    decreases 10 - i,
{
    if i < 10 {
        lemma_pow60_fits(i + 1);
        assert(pow60(i + 1) == 60 * pow60(i));
    } else {
        reveal_with_fuel(pow60, 11);
    }
}

/// The seconds that the fields `rev[0..i]` stand for, where `rev[k]` counts in units of `60^k`.
pub open spec fn weighted_sum(rev: Seq<Seq<char>>, i: nat) -> nat
    decreases i,
{
    if i == 0 {
        0
    } else {
        weighted_sum(rev, (i - 1) as nat) + parse_u64(rev[i - 1]).unwrap() as nat * pow60(
            (i - 1) as nat,
        )
    }
}

proof fn lemma_weighted_sum_monotone(rev: Seq<Seq<char>>, i: nat, j: nat)
    requires
        i <= j,
    ensures
        weighted_sum(rev, i) <= weighted_sum(rev, j),
    decreases j,
{
    if i < j {
        lemma_weighted_sum_monotone(rev, i, (j - 1) as nat);
    }
}

/// The `:`-separated fields of the trimmed `s`, last field first.
pub open spec fn time_fields(s: Seq<char>) -> Seq<Seq<char>> {
    split(trim(s), ':').reverse()
}

/// The number of seconds that `s` writes as `[[h:]m:]s` (any number of fields, each a `u64`),
/// where that number and every step of computing it fits in a `u64`.
pub open spec fn time_value(s: Seq<char>) -> Option<u64> {
    let f = time_fields(s);
    if (forall|k: int| 0 <= k < f.len() ==> (#[trigger] parse_u64(f[k])) is Some) && f.len() <= 11
        && weighted_sum(f, f.len()) <= u64::MAX {
        Some(weighted_sum(f, f.len()) as u64)
    } else {
        None
    }
}

/// Reads `time` as a number of seconds, from fields separated by `:` with the last field
/// counting seconds, the one before it minutes, and so on by powers of 60.
/// `time` must be readable so: each field a number and the total within a `u64`.
pub fn convert_string_int(time: &str) -> (r: u64)
    requires
        time_value(time@) is Some,
    ensures
        r == time_value(time@).unwrap(),
{
    read_time(time).unwrap()
}

/// Reads `time` as `convert_string_int` does; `None` where a field is not a number or the
/// total does not fit in a `u64`.
pub fn read_time(time: &str) -> (r: Option<u64>)
    ensures
        r == time_value(time@),
{
    let t = trimmed(time);
    let tv = chars_of(t.as_str());
    let parts = split_chars(&tv, ':');
    let n = parts.len();
    let ghost f = time_fields(time@);
    assert(f.len() == n);
    assert forall|k: int| 0 <= k < n implies f[k] == parts@[n - 1 - k]@ by {
        assert(views_of(parts@)[n - 1 - k] == parts@[n - 1 - k]@);
    }
    let mut total: u64 = 0;
    let mut power: u64 = 1;
    let mut i: usize = 0;
    while i < n
        invariant
            i <= n == f.len(),
            f == time_fields(time@),
            n == parts@.len(),
            forall|k: int| 0 <= k < n ==> f[k] == (#[trigger] parts@[n - 1 - k])@,
            forall|k: int| 0 <= k < i ==> (#[trigger] parse_u64(f[k])) is Some,
            total == weighted_sum(f, i as nat),
            i < n ==> power == pow60(i as nat),
            i < n ==> i <= 10,
            i <= 11,
        decreases n - i,
    {
        let value = match parse_u64_chars(&parts[n - 1 - i]) {
            Some(x) => x,
            None => {
                assert(parse_u64(f[i as int]) is None);
                return None;
            },
        };
        let next = match value.checked_mul(power) {
            Some(m) => total.checked_add(m),
            None => None,
        };
        match next {
            Some(x) => {
                total = x;
            },
            None => {
                proof {
                    assert(weighted_sum(f, (i + 1) as nat) == total + value * power);
                    lemma_weighted_sum_monotone(f, (i + 1) as nat, n as nat);
                }
                return None;
            },
        }
        if i + 1 < n {
            match power.checked_mul(60) {
                Some(p) => {
                    power = p;
                    proof {
                        assert(pow60((i + 1) as nat) == 60 * pow60(i as nat));
                        if i + 1 >= 11 {
                            lemma_pow60_large((i + 1) as nat);
                        }
                    }
                },
                None => {
                    proof {
                        assert(pow60((i + 1) as nat) == 60 * pow60(i as nat));
                        if i + 1 <= 10 {
                            lemma_pow60_fits((i + 1) as nat);
                        }
                    }
                    return None;
                },
            }
        }
        i = i + 1;
    }
    Some(total)
}

/// `n` occurs in `h` starting at `i`.
pub open spec fn occurs_at(h: Seq<char>, n: Seq<char>, i: int) -> bool {
    0 <= i && i + n.len() <= h.len() && h.subrange(i, i + n.len()) == n
}

/// `n` occurs somewhere in `h` (what `str::contains` tests).
pub open spec fn contains(h: Seq<char>, n: Seq<char>) -> bool {
    exists|i: int| occurs_at(h, n, i)
}

/// Whether `needle` occurs in `hay`.
pub fn contains_str(hay: &str, needle: &str) -> (r: bool)
    ensures
        r == contains(hay@, needle@),
{
    let h = chars_of(hay);
    let n = chars_of(needle);
    let hl = h.len();
    let nl = n.len();
    if nl > hl {
        assert forall|i: int| !occurs_at(hay@, needle@, i) by {}
        return false;
    }
    let mut i: usize = 0;
    while i <= hl - nl
        invariant
            hl == h@.len() == hay@.len(),
            nl == n@.len() == needle@.len(),
            h@ == hay@,
            n@ == needle@,
            nl <= hl,
            i <= hl - nl + 1,
            forall|k: int| 0 <= k < i ==> !occurs_at(hay@, needle@, k),
        decreases hl - nl + 1 - i,
    {
        let mut j: usize = 0;
        let mut same = true;
        while j < nl
            invariant
                hl == h@.len(),
                nl == n@.len(),
                i + nl <= hl,
                j <= nl,
                same ==> forall|k: int| 0 <= k < j ==> h@[i + k] == n@[k],
                !same ==> exists|k: int| 0 <= k < nl && h@[i + k] != n@[k],
            decreases nl - j,
        {
            if h[i + j] != n[j] {
                same = false;
            }
            j = j + 1;
        }
        if same {
            assert(h@.subrange(i as int, i + nl) == n@);
            assert(occurs_at(hay@, needle@, i as int));
            return true;
        }
        proof {
            let k = choose|k: int| 0 <= k < nl && h@[i + k] != n@[k];
            assert(h@.subrange(i as int, i + nl)[k] != n@[k]);
        }
        i = i + 1;
    }
    assert forall|k: int| !occurs_at(hay@, needle@, k) by {
        if 0 <= k < i {
        }
    }
    false
}

/// The decimal digits of `n`.
pub open spec fn decimal(n: nat) -> Seq<char>
    decreases n,
{
    if n < 10 {
        seq![digit_char(n)]
    } else {
        decimal(n / 10).push(digit_char(n % 10))
    }
}

pub open spec fn digit_char(d: nat) -> char {
    (d + '0' as nat) as char
}

/// Appends the decimal digits of `n` to `out`.
pub fn push_decimal(out: &mut String, n: usize)
    ensures
        final(out)@ == old(out)@ + decimal(n as nat),
    decreases n,
{
    if n >= 10 {
        push_decimal(out, n / 10);
    }
    let d = (n % 10) as u8;
    let c = (d + 48) as char;
    out.push(c);
    assert(c == digit_char((n % 10) as nat));
}


/// A field of digits splits off whole: splitting `x` (without `sep`) after `cur` gives the
/// single piece `cur + x`.
proof fn lemma_split_no_sep(x: Seq<char>, sep: char, cur: Seq<char>)
    requires
        forall|i: int| 0 <= i < x.len() ==> x[i] != sep,
    ensures
        split_from(x, sep, cur) == seq![cur + x],
    decreases x.len(),
{
    if x.len() > 0 {
        lemma_split_no_sep(x.drop_first(), sep, cur.push(x[0]));
        assert(cur.push(x[0]) + x.drop_first() == cur + x);
    } else {
        assert(cur + x == cur);
    }
}

/// Splitting `x + [sep] + rest` (with no `sep` in `x`) after `cur` gives `cur + x`, then the
/// pieces of `rest`.
proof fn lemma_split_field(x: Seq<char>, sep: char, rest: Seq<char>, cur: Seq<char>)
    requires
        forall|i: int| 0 <= i < x.len() ==> x[i] != sep,
    ensures
        split_from(x + seq![sep] + rest, sep, cur) == seq![cur + x] + split_from(
            rest,
            sep,
            Seq::empty(),
        ),
    decreases x.len(),
{
    let s = x + seq![sep] + rest;
    if x.len() > 0 {
        assert(s.drop_first() == x.drop_first() + seq![sep] + rest);
        lemma_split_field(x.drop_first(), sep, rest, cur.push(x[0]));
        assert(cur.push(x[0]) + x.drop_first() == cur + x);
    } else {
        assert(s.drop_first() == rest);
        assert(cur + x == cur);
    }
}

/// A nonempty field of digits reads as its value.
proof fn lemma_parse_digits(d: Seq<char>)
    requires
        d.len() > 0,
        all_digits(d),
        digits_value(d) <= u64::MAX,
    ensures
        parse_u64(d) == Some(digits_value(d) as u64),
{
    assert(is_digit(d[0]));
}

/// Digits are neither white space nor `:`, so a text of digit fields and colons keeps its
/// shape when trimmed.
proof fn lemma_trim_keeps(s: Seq<char>)
    requires
        s.len() > 0,
        !is_white(s[0]),
        !is_white(s.last()),
    ensures
        trim(s) == s,
{
}

/// A time written as a number of seconds reads as that number.
pub proof fn law_plain_seconds(d: Seq<char>)
    requires
        d.len() > 0,
        all_digits(d),
        digits_value(d) <= u64::MAX,
    ensures
        time_value(d) == Some(digits_value(d) as u64),
{
    assert(is_digit(d[0]) && is_digit(d.last()));
    lemma_trim_keeps(d);
    lemma_split_no_sep(d, ':', Seq::empty());
    assert(Seq::<char>::empty() + d == d);
    let f = time_fields(d);
    assert(f == seq![d]);
    lemma_parse_digits(d);
    reveal_with_fuel(weighted_sum, 2);
    assert(pow60(0) == 1);
}

/// A time written `h:m:s` reads as `h * 3600 + m * 60 + s` seconds.
pub proof fn law_clock_time(h: Seq<char>, m: Seq<char>, s: Seq<char>)
    requires
        h.len() > 0 && m.len() > 0 && s.len() > 0,
        all_digits(h) && all_digits(m) && all_digits(s),
        digits_value(h) * 3600 + digits_value(m) * 60 + digits_value(s) <= u64::MAX,
    ensures
        time_value(h + ":"@ + m + ":"@ + s) == Some(
            (digits_value(h) * 3600 + digits_value(m) * 60 + digits_value(s)) as u64,
        ),
{
    reveal_strlit(":");
    assert(":"@ == seq![':']);
    let t = h + ":"@ + m + ":"@ + s;
    assert(is_digit(h[0]) && is_digit(s.last()));
    assert(t[0] == h[0]);
    assert(t.last() == s.last());
    lemma_trim_keeps(t);
    assert forall|i: int| 0 <= i < h.len() implies h[i] != ':' by {
        assert(is_digit(h[i]));
    }
    assert forall|i: int| 0 <= i < m.len() implies m[i] != ':' by {
        assert(is_digit(m[i]));
    }
    assert forall|i: int| 0 <= i < s.len() implies s[i] != ':' by {
        assert(is_digit(s[i]));
    }
    let rest = m + ":"@ + s;
    assert(t == h + seq![':'] + rest);
    lemma_split_field(h, ':', rest, Seq::empty());
    assert(rest == m + seq![':'] + s);
    lemma_split_field(m, ':', s, Seq::empty());
    lemma_split_no_sep(s, ':', Seq::empty());
    assert(Seq::<char>::empty() + h == h);
    assert(Seq::<char>::empty() + m == m);
    assert(Seq::<char>::empty() + s == s);
    let f = time_fields(t);
    assert(split(trim(t), ':') == seq![h, m, s]);
    assert(f == seq![s, m, h]);
    lemma_parse_digits(s);
    lemma_parse_digits(m);
    lemma_parse_digits(h);
    assert(f[0] == s && f[1] == m && f[2] == h);
    assert(forall|k: int| 0 <= k < f.len() ==> (#[trigger] parse_u64(f[k])) is Some) by {
        assert(parse_u64(f[0]) is Some && parse_u64(f[1]) is Some && parse_u64(f[2]) is Some);
    }
    reveal_with_fuel(pow60, 3);
    assert(pow60(0) == 1 && pow60(1) == 60 && pow60(2) == 3600);
    reveal_with_fuel(weighted_sum, 4);
    assert(weighted_sum(f, 3) == digits_value(s) + digits_value(m) * 60 + digits_value(h) * 3600);
}


/// A time written `m:s` reads as `m * 60 + s` seconds.
pub proof fn law_minutes_seconds(m: Seq<char>, s: Seq<char>)
    requires
        m.len() > 0 && s.len() > 0,
        all_digits(m) && all_digits(s),
        digits_value(m) * 60 + digits_value(s) <= u64::MAX,
    ensures
        time_value(m + ":"@ + s) == Some((digits_value(m) * 60 + digits_value(s)) as u64),
{
    reveal_strlit(":");
    assert(":"@ == seq![':']);
    let t = m + ":"@ + s;
    assert(is_digit(m[0]) && is_digit(s.last()));
    assert(t[0] == m[0]);
    assert(t.last() == s.last());
    lemma_trim_keeps(t);
    assert forall|i: int| 0 <= i < m.len() implies m[i] != ':' by {
        assert(is_digit(m[i]));
    }
    assert forall|i: int| 0 <= i < s.len() implies s[i] != ':' by {
        assert(is_digit(s[i]));
    }
    assert(t == m + seq![':'] + s);
    lemma_split_field(m, ':', s, Seq::empty());
    lemma_split_no_sep(s, ':', Seq::empty());
    assert(Seq::<char>::empty() + m == m);
    assert(Seq::<char>::empty() + s == s);
    let f = time_fields(t);
    assert(split(trim(t), ':') == seq![m, s]);
    assert(f == seq![s, m]);
    lemma_parse_digits(s);
    lemma_parse_digits(m);
    assert(forall|k: int| 0 <= k < f.len() ==> (#[trigger] parse_u64(f[k])) is Some) by {
        assert(parse_u64(f[0]) is Some && parse_u64(f[1]) is Some);
    }
    reveal_with_fuel(pow60, 2);
    assert(pow60(0) == 1 && pow60(1) == 60);
    reveal_with_fuel(weighted_sum, 3);
    assert(weighted_sum(f, 2) == digits_value(s) + digits_value(m) * 60);
}

/// `n` (below one hundred) in two digits, with a leading zero below ten.
pub open spec fn two_digits(n: nat) -> Seq<char> {
    seq![digit_char(n / 10), digit_char(n % 10)]
}

proof fn lemma_digit_char(d: nat)
    requires
        d < 10,
    ensures
        is_digit(digit_char(d)),
        digit_value(digit_char(d)) == d,
{
}

/// The decimal digits of `n` are digits that read as `n`.
proof fn lemma_decimal_digits(n: nat)
    ensures
        decimal(n).len() > 0,
        all_digits(decimal(n)),
        digits_value(decimal(n)) == n,
    decreases n,
{
    if n < 10 {
        lemma_digit_char(n);
        let d = decimal(n);
        assert(d.drop_last() == Seq::<char>::empty());
        assert(digits_value(Seq::<char>::empty()) == 0);
        assert(d.last() == digit_char(n));
    } else {
        lemma_decimal_digits(n / 10);
        lemma_digit_char(n % 10);
        let d = decimal(n);
        assert(d.drop_last() == decimal(n / 10));
        assert(d.last() == digit_char(n % 10));
        assert(n / 10 * 10 + n % 10 == n);
        assert forall|i: int| 0 <= i < d.len() implies is_digit(#[trigger] d[i]) by {
            if i < d.len() - 1 {
                assert(d[i] == decimal(n / 10)[i]);
            }
        }
    }
}

proof fn lemma_two_digits(n: nat)
    requires
        n < 100,
    ensures
        two_digits(n).len() > 0,
        all_digits(two_digits(n)),
        digits_value(two_digits(n)) == n,
{
    lemma_digit_char(n / 10);
    lemma_digit_char(n % 10);
    let d = two_digits(n);
    assert(d.drop_last() == seq![digit_char(n / 10)]);
    assert(seq![digit_char(n / 10)].drop_last() == Seq::<char>::empty());
    assert(digits_value(Seq::<char>::empty()) == 0);
    assert(digits_value(seq![digit_char(n / 10)]) == n / 10);
    assert(d.last() == digit_char(n % 10));
    assert(n / 10 * 10 + n % 10 == n);
}

/// A number of seconds written out in decimal reads as that number.
pub proof fn law_decimal_seconds(n: nat)
    requires
        n <= u64::MAX,
    ensures
        time_value(decimal(n)) == Some(n as u64),
{
    lemma_decimal_digits(n);
    law_plain_seconds(decimal(n));
}

/// Times written out as `format!("{}:{:02}", m, s)` and `format!("{}:{:02}:{:02}", h, m, s)`
/// read as `m * 60 + s` and `h * 3600 + m * 60 + s` seconds.
pub proof fn law_decimal_times(h: nat, m: nat, s: nat)
    requires
        m < 60,
        s < 60,
        h * 3600 + m * 60 + s <= u64::MAX,
    ensures
        time_value(decimal(m) + ":"@ + two_digits(s)) == Some((m * 60 + s) as u64),
        time_value(decimal(h) + ":"@ + two_digits(m) + ":"@ + two_digits(s)) == Some(
            (h * 3600 + m * 60 + s) as u64,
        ),
{
    lemma_decimal_digits(h);
    lemma_decimal_digits(m);
    lemma_two_digits(m);
    lemma_two_digits(s);
    law_minutes_seconds(decimal(m), two_digits(s));
    law_clock_time(decimal(h), two_digits(m), two_digits(s));
}

} // verus!
