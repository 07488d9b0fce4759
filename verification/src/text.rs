use vstd::prelude::*;

verus! {

broadcast use vstd::string::group_string_axioms;

/// The characters of `s`, in order.
pub fn chars_of(s: &str) -> (v: Vec<char>)
    ensures
        v@ == s@,
{
    let mut v: Vec<char> = Vec::new();
    let chars = s.chars();
    for c in it: chars
        invariant
            it.seq() == s@,
            v@ == it.seq().take(it.index()),
    {
        v.push(c);
    }
    v
}


/// Unicode `White_Space`, the set of characters that `char::is_whitespace`
/// (and therefore `str::trim` and `str::split_whitespace`) treats as blank.
pub open spec fn is_white(c: char) -> bool {
    let n = c as u32;
    ||| 9 <= n <= 13
    ||| n == 32
    ||| n == 0x85
    ||| n == 0xA0
    ||| n == 0x1680
    ||| 0x2000 <= n <= 0x200A
    ||| n == 0x2028
    ||| n == 0x2029
    ||| n == 0x202F
    ||| n == 0x205F
    ||| n == 0x3000
}

pub fn is_white_char(c: char) -> (b: bool)
    ensures
        b == is_white(c),
{
    let n = c as u32;
    (9 <= n && n <= 13) || n == 32 || n == 0x85 || n == 0xA0 || n == 0x1680 || (0x2000 <= n
        && n <= 0x200A) || n == 0x2028 || n == 0x2029 || n == 0x202F || n == 0x205F || n
        == 0x3000
}

/// `s` without its leading white space.
pub closed spec fn trim_start(s: Seq<char>) -> Seq<char>
    decreases s.len(),
{
    if s.len() > 0 && is_white(s[0]) {
        trim_start(s.drop_first())
    } else {
        s
    }
}

/// `s` without its trailing white space.
pub closed spec fn trim_end(s: Seq<char>) -> Seq<char>
    decreases s.len(),
{
    if s.len() > 0 && is_white(s.last()) {
        trim_end(s.drop_last())
    } else {
        s
    }
}

/// `s` without leading and trailing white space, as `str::trim` gives it.
pub closed spec fn trim(s: Seq<char>) -> Seq<char> {
    trim_end(trim_start(s))
}

/// The defining equations of `trim_start`, `trim_end` and `trim`.
pub proof fn lemma_trim_unfold(s: Seq<char>)
    ensures
        trim(s) == trim_end(trim_start(s)),
        trim_start(s) == if s.len() > 0 && is_white(s[0]) {
            trim_start(s.drop_first())
        } else {
            s
        },
        trim_end(s) == if s.len() > 0 && is_white(s.last()) {
            trim_end(s.drop_last())
        } else {
            s
        },
{
}

proof fn lemma_trim_start_shape(s: Seq<char>)
    ensures
        trim_start(s).len() > 0 ==> !is_white(trim_start(s)[0]),
    decreases s.len(),
{
    if s.len() > 0 && is_white(s[0]) {
        lemma_trim_start_shape(s.drop_first());
    }
}

proof fn lemma_trim_end_keeps_start(s: Seq<char>)
    ensures
        trim_end(s).len() > 0 ==> trim_end(s)[0] == s[0],
        trim_end(s).len() > 0 ==> !is_white(trim_end(s).last()),
    decreases s.len(),
{
    if s.len() > 0 && is_white(s.last()) {
        lemma_trim_end_keeps_start(s.drop_last());
    }
}

/// Trimming never lengthens.
pub proof fn lemma_trim_len(s: Seq<char>)
    ensures
        trim(s).len() <= s.len(),
{
    lemma_trim_start_len(s);
    lemma_trim_end_len(trim_start(s));
}

proof fn lemma_trim_start_len(s: Seq<char>)
    ensures
        trim_start(s).len() <= s.len(),
    decreases s.len(),
{
    if s.len() > 0 && is_white(s[0]) {
        lemma_trim_start_len(s.drop_first());
    }
}

proof fn lemma_trim_end_len(s: Seq<char>)
    ensures
        trim_end(s).len() <= s.len(),
    decreases s.len(),
{
    if s.len() > 0 && is_white(s.last()) {
        lemma_trim_end_len(s.drop_last());
    }
}

/// Trimmed text that is not empty neither starts nor ends with white space.
pub proof fn lemma_trim_ends(s: Seq<char>)
    ensures
        trim(s).len() > 0 ==> !is_white(trim(s)[0]) && !is_white(trim(s).last()),
{
    lemma_trim_start_shape(s);
    lemma_trim_end_keeps_start(trim_start(s));
}

/// Trimming twice trims no more than once.
pub proof fn lemma_trim_idempotent(s: Seq<char>)
    ensures
        trim(trim(s)) == trim(s),
{
    lemma_trim_start_shape(s);
    lemma_trim_end_keeps_start(trim_start(s));
    let t = trim(s);
    if t.len() > 0 {
        lemma_trim_unchanged(t);
    } else {
        assert(trim_start(t) == t);
        assert(trim_end(t) == t);
    }
}

/// Text without white space at either end is its own trimmed form.
pub proof fn lemma_trim_unchanged(s: Seq<char>)
    requires
        s.len() > 0 ==> !is_white(s[0]) && !is_white(s.last()),
    ensures
        trim(s) == s,
{
    assert(trim_start(s) == s);
}

/// The decimal digits of `n`, as characters.
pub open spec fn decimal_chars(n: nat) -> Seq<char>
    decreases n,
{
    if n < 10 {
        seq![(48 + n) as char]
    } else {
        decimal_chars(n / 10).push((48 + n % 10) as char)
    }
}

pub proof fn lemma_decimal_chars_digits(n: nat)
    ensures
        decimal_chars(n).len() > 0,
        forall|i: int| 0 <= i < decimal_chars(n).len() ==> '0' <= #[trigger] decimal_chars(n)[i] <= '9',
    decreases n,
{
    if n >= 10 {
        lemma_decimal_chars_digits(n / 10);
    }
}

/// The defining equations of `parse_unsigned` and the functions it rests on.
pub proof fn lemma_parse_unsigned_unfold(s: Seq<char>, max: nat)
    ensures
        parse_unsigned(s, max) == {
            let d = unsigned_digits(s);
            if d.len() > 0 && all_digits(d) && digits_value(d) <= max {
                Some(digits_value(d))
            } else {
                None::<nat>
            }
        },
        unsigned_digits(s) == if s.len() > 0 && s[0] == '+' {
            s.drop_first()
        } else {
            s
        },
        all_digits(s) == forall|i: int| 0 <= i < s.len() ==> is_digit(#[trigger] s[i]),
        digits_value(s) == if s.len() == 0 {
            0
        } else {
            digits_value(s.drop_last()) * 10 + digit_value(s.last())
        },
        forall|c: char| #[trigger] is_digit(c) == ('0' <= c <= '9'),
        forall|c: char| #[trigger] digit_value(c) == (c as int - '0' as int) as nat,
{
}

/// Decimal digits read back as the number they were written from.
pub proof fn lemma_parse_decimal(n: nat, max: nat)
    requires
        n <= max,
    ensures
        parse_unsigned(decimal_chars(n), max) == Some(n),
    decreases n,
{
    lemma_decimal_chars_digits(n);
    let s = decimal_chars(n);
    assert(unsigned_digits(s) == s);
    assert(all_digits(s));
    if n >= 10 {
        lemma_parse_decimal(n / 10, max);
        assert(s.drop_last() == decimal_chars(n / 10));
        assert(parse_unsigned(decimal_chars(n / 10), max) == Some(n / 10));
        lemma_decimal_chars_digits(n / 10);
        assert(unsigned_digits(decimal_chars(n / 10)) == decimal_chars(n / 10));
        assert(digits_value(decimal_chars(n / 10)) == n / 10);
        assert(s.last() == (48 + n % 10) as char);
        assert(digit_value(s.last()) == n % 10);
        assert(digits_value(s) == (n / 10) * 10 + n % 10);
        assert((n / 10) * 10 + n % 10 == n) by (nonlinear_arith);
    } else {
        assert(s.drop_last() =~= Seq::<char>::empty());
        assert(digits_value(s.drop_last()) == 0);
        assert(digit_value(s.last()) == n);
    }
    assert(digits_value(s) == n);
}

/// Bounds of the trimmed part of `v[lo..hi]`.
pub fn trim_bounds(v: &Vec<char>, lo: usize, hi: usize) -> (r: (usize, usize))
    requires
        lo <= hi <= v@.len(),
    ensures
        lo <= r.0 <= r.1 <= hi,
        v@.subrange(r.0 as int, r.1 as int) == trim(v@.subrange(lo as int, hi as int)),
        r.0 < r.1 ==> !is_white(v@[r.0 as int]) && !is_white(v@[r.1 - 1]),
{
    let mut a = lo;
    while a < hi && is_white_char(v[a])
        invariant
            lo <= a <= hi <= v@.len(),
            trim_start(v@.subrange(lo as int, hi as int)) == trim_start(
                v@.subrange(a as int, hi as int),
            ),
        decreases hi - a,
    {
        assert(v@.subrange(a as int, hi as int).drop_first() =~= v@.subrange(a + 1, hi as int));
        a = a + 1;
    }
    assert(trim_start(v@.subrange(a as int, hi as int)) == v@.subrange(a as int, hi as int));
    let mut b = hi;
    while b > a && is_white_char(v[b - 1])
        invariant
            lo <= a <= b <= hi <= v@.len(),
            trim(v@.subrange(lo as int, hi as int)) == trim_end(v@.subrange(a as int, b as int)),
        decreases b - a,
    {
        assert(v@.subrange(a as int, b as int).drop_last() =~= v@.subrange(a as int, b - 1));
        b = b - 1;
    }
    (a, b)
}

pub closed spec fn is_digit(c: char) -> bool {
    '0' <= c <= '9'
}

pub closed spec fn digit_value(c: char) -> nat {
    (c as int - '0' as int) as nat
}

/// The number that the decimal digits `s` spell.
pub closed spec fn digits_value(s: Seq<char>) -> nat
    decreases s.len(),
{
    if s.len() == 0 {
        0
    } else {
        digits_value(s.drop_last()) * 10 + digit_value(s.last())
    }
}

pub closed spec fn all_digits(s: Seq<char>) -> bool {
    forall|i: int| 0 <= i < s.len() ==> is_digit(#[trigger] s[i])
}

/// The digits of an unsigned number: `s` without one leading `+`.
pub closed spec fn unsigned_digits(s: Seq<char>) -> Seq<char> {
    if s.len() > 0 && s[0] == '+' {
        s.drop_first()
    } else {
        s
    }
}

/// What `str::parse` gives for an unsigned integer type whose largest value
/// is `max`: an optional `+`, then one or more ASCII digits, of value at most `max`.
pub closed spec fn parse_unsigned(s: Seq<char>, max: nat) -> Option<nat> {
    let d = unsigned_digits(s);
    if d.len() > 0 && all_digits(d) && digits_value(d) <= max {
        Some(digits_value(d))
    } else {
        None
    }
}

proof fn lemma_digits_value_prefix(s: Seq<char>, k: int)
    requires
        0 <= k <= s.len(),
    ensures
        digits_value(s.take(k)) <= digits_value(s),
    decreases s.len(),
{
    if k < s.len() {
        assert(s.drop_last().take(k) =~= s.take(k));
        lemma_digits_value_prefix(s.drop_last(), k);
    } else {
        assert(s.take(k) =~= s);
    }
}

/// Parses `v[lo..hi]` as an unsigned number of at most `max`, as `str::parse` does.
pub fn parse_unsigned_range(v: &Vec<char>, lo: usize, hi: usize, max: u32) -> (r: Option<u32>)
    requires
        lo <= hi <= v@.len(),
    ensures
        match parse_unsigned(v@.subrange(lo as int, hi as int), max as nat) {
            Some(n) => n <= max && r == Some(n as u32),
            None => r is None,
        },
{
    let ghost s = v@.subrange(lo as int, hi as int);
    let mut start = lo;
    if lo < hi && v[lo] == '+' {
        start = lo + 1;
    }
    let ghost d = v@.subrange(start as int, hi as int);
    assert(unsigned_digits(s) =~= d);
    if start == hi {
        return None;
    }
    let mut acc: u64 = 0;
    let mut i = start;
    while i < hi
        invariant
            lo <= start <= i <= hi <= v@.len(),
            d == v@.subrange(start as int, hi as int),
            unsigned_digits(s) == d,
            s == v@.subrange(lo as int, hi as int),
            acc == digits_value(v@.subrange(start as int, i as int)),
            all_digits(v@.subrange(start as int, i as int)),
            acc <= max,
        decreases hi - i,
    {
        let c = v[i];
        if !('0' <= c && c <= '9') {
            assert(!is_digit(d[i - start]));
            return None;
        }
        let dv = (c as u32 - '0' as u32) as u64;
        let next = acc * 10 + dv;
        assert(v@.subrange(start as int, i + 1).drop_last() =~= v@.subrange(start as int, i as int));
        if next > max as u64 {
            proof {
                assert(d.take(i + 1 - start) =~= v@.subrange(start as int, i + 1));
                lemma_digits_value_prefix(d, i + 1 - start);
            }
            return None;
        }
        acc = next;
        i = i + 1;
    }
    assert(v@.subrange(start as int, i as int) =~= d);
    Some(acc as u32)
}


/// The pieces of `s` between occurrences of `sep`, as `str::split` gives them
/// (always at least one piece).
pub open spec fn split_char(s: Seq<char>, sep: char) -> Seq<Seq<char>>
    decreases s.len(),
{
    if s.len() == 0 {
        seq![Seq::<char>::empty()]
    } else {
        let parts = split_char(s.drop_last(), sep);
        if s.last() == sep {
            parts.push(Seq::<char>::empty())
        } else {
            parts.update(parts.len() - 1, parts.last().push(s.last()))
        }
    }
}

pub proof fn lemma_split_char_nonempty(s: Seq<char>, sep: char)
    ensures
        split_char(s, sep).len() >= 1,
    decreases s.len(),
{
    if s.len() > 0 {
        lemma_split_char_nonempty(s.drop_last(), sep);
    }
}

/// Text without the separator splits into one piece: itself.
pub proof fn lemma_split_char_without_sep(s: Seq<char>, sep: char)
    requires
        forall|i: int| 0 <= i < s.len() ==> s[i] != sep,
    ensures
        split_char(s, sep) == seq![s],
    decreases s.len(),
{
    if s.len() == 0 {
        assert(s =~= Seq::<char>::empty());
    } else {
        lemma_split_char_without_sep(s.drop_last(), sep);
        assert(s.drop_last().push(s.last()) =~= s);
        assert(seq![s.drop_last()].update(0, s.drop_last().push(s.last())) =~= seq![s]);
    }
}

/// No piece of a split is longer than the text it was cut from.
pub proof fn lemma_split_char_part_len(s: Seq<char>, sep: char)
    ensures
        forall|j: int|
            0 <= j < split_char(s, sep).len() ==> (#[trigger] split_char(s, sep)[j]).len()
                <= s.len(),
    decreases s.len(),
{
    if s.len() > 0 {
        lemma_split_char_part_len(s.drop_last(), sep);
        lemma_split_char_nonempty(s.drop_last(), sep);
    }
}

/// Bounds, in `v`, of the pieces of `v[lo..hi]` split at `sep`.
pub fn split_ranges(v: &Vec<char>, lo: usize, hi: usize, sep: char) -> (r: Vec<(usize, usize)>)
    requires
        lo <= hi <= v@.len(),
    ensures
        r@.len() == split_char(v@.subrange(lo as int, hi as int), sep).len(),
        forall|k: int|
            0 <= k < r@.len() ==> lo <= (#[trigger] r@[k]).0 <= r@[k].1 <= hi && v@.subrange(
                r@[k].0 as int,
                r@[k].1 as int,
            ) == split_char(v@.subrange(lo as int, hi as int), sep)[k],
{
    let mut r: Vec<(usize, usize)> = Vec::new();
    let mut start = lo;
    let mut i = lo;
    assert(v@.subrange(lo as int, lo as int) =~= Seq::<char>::empty());
    while i < hi
        invariant
            lo <= start <= i <= hi <= v@.len(),
            r@.len() + 1 == split_char(v@.subrange(lo as int, i as int), sep).len(),
            split_char(v@.subrange(lo as int, i as int), sep).last() == v@.subrange(
                start as int,
                i as int,
            ),
            forall|k: int|
                0 <= k < r@.len() ==> lo <= (#[trigger] r@[k]).0 <= r@[k].1 <= hi && v@.subrange(
                    r@[k].0 as int,
                    r@[k].1 as int,
                ) == split_char(v@.subrange(lo as int, i as int), sep)[k],
        decreases hi - i,
    {
        proof {
            lemma_split_char_nonempty(v@.subrange(lo as int, i as int), sep);
            assert(v@.subrange(lo as int, i + 1).drop_last() =~= v@.subrange(lo as int, i as int));
        }
        if v[i] == sep {
            r.push((start, i));
            start = i + 1;
            assert(v@.subrange(start as int, i + 1) =~= Seq::<char>::empty());
        } else {
            assert(v@.subrange(start as int, i as int).push(v@[i as int]) =~= v@.subrange(
                start as int,
                i + 1,
            ));
        }
        i = i + 1;
    }
    r.push((start, hi));
    r
}

/// The maximal runs of non-white characters of `s`, as `str::split_whitespace` gives them.
pub open spec fn ws_tokens(s: Seq<char>) -> Seq<Seq<char>>
    decreases s.len(),
{
    if s.len() == 0 {
        Seq::<Seq<char>>::empty()
    } else {
        let t = ws_tokens(s.drop_last());
        if is_white(s.last()) {
            t
        } else if s.len() >= 2 && !is_white(s[s.len() - 2]) {
            t.update(t.len() - 1, t.last().push(s.last()))
        } else {
            t.push(seq![s.last()])
        }
    }
}

pub proof fn lemma_ws_tokens_len(s: Seq<char>)
    ensures
        ws_tokens(s).len() <= s.len(),
        s.len() > 0 && !is_white(s.last()) ==> ws_tokens(s).len() > 0,
    decreases s.len(),
{
    if s.len() > 0 {
        lemma_ws_tokens_len(s.drop_last());
    }
}

/// The tokens of `v[lo..hi]` (see `ws_tokens`), as strings.
pub fn ws_token_strings(v: &Vec<char>, lo: usize, hi: usize) -> (tokens: Vec<String>)
    requires
        lo <= hi <= v@.len(),
    ensures
        tokens@.map_values(|t: String| t@) == ws_tokens(v@.subrange(lo as int, hi as int)),
{
    let mut tokens: Vec<String> = Vec::new();
    let mut in_token = false;
    let mut ts = lo;
    let mut i = lo;
    assert(v@.subrange(lo as int, lo as int) =~= Seq::<char>::empty());
    while i < hi
        invariant
            lo <= ts <= i <= hi <= v@.len(),
            !in_token ==> ws_tokens(v@.subrange(lo as int, i as int)) == tokens@.map_values(
                |t: String| t@,
            ),
            !in_token && i > lo ==> is_white(v@[i - 1]),
            in_token ==> ts < i && ws_tokens(v@.subrange(lo as int, i as int)) == tokens@.map_values(
                |t: String| t@,
            ).push(v@.subrange(ts as int, i as int)),
            in_token ==> !is_white(v@[i - 1]),
        decreases hi - i,
    {
        let c = v[i];
        let ghost prev = v@.subrange(lo as int, i as int);
        let ghost done = tokens@.map_values(|t: String| t@);
        assert(v@.subrange(lo as int, i + 1).drop_last() =~= prev);
        if is_white_char(c) {
            if in_token {
                let t = string_of_range(v, ts, i);
                tokens.push(t);
                assert(tokens@.map_values(|t: String| t@) =~= done.push(t@));
                in_token = false;
            }
        } else {
            if in_token {
                assert(v@.subrange(ts as int, i as int).push(c) =~= v@.subrange(ts as int, i + 1));
                assert(v@.subrange(lo as int, i + 1)[(i + 1 - lo) - 2] == v@[i - 1]);
                assert(done.push(v@.subrange(ts as int, i as int)).update(
                    done.len() as int,
                    v@.subrange(ts as int, i + 1),
                ) =~= done.push(v@.subrange(ts as int, i + 1)));
            } else {
                if i > lo {
                    assert(v@.subrange(lo as int, i + 1)[(i + 1 - lo) - 2] == v@[i - 1]);
                }
                assert(seq![c] =~= v@.subrange(i as int, i + 1));
                ts = i;
                in_token = true;
            }
        }
        i = i + 1;
    }
    if in_token {
        let ghost done = tokens@.map_values(|t: String| t@);
        let t = string_of_range(v, ts, hi);
        tokens.push(t);
        assert(tokens@.map_values(|t: String| t@) =~= done.push(t@));
    }
    tokens
}

/// Text that follows white space (or nothing) starts a token of its own, so
/// the tokens of the whole are the tokens of both parts.
pub proof fn lemma_ws_tokens_concat(a: Seq<char>, b: Seq<char>)
    requires
        a.len() == 0 || is_white(a.last()),
    ensures
        ws_tokens(a + b) == ws_tokens(a) + ws_tokens(b),
    decreases b.len(),
{
    if b.len() == 0 {
        assert(a + b =~= a);
        assert(ws_tokens(a) + ws_tokens(b) =~= ws_tokens(a));
    } else {
        let ab = a + b;
        lemma_ws_tokens_concat(a, b.drop_last());
        assert(ab.drop_last() =~= a + b.drop_last());
        assert(ab.last() == b.last());
        let x = ws_tokens(a);
        let t = ws_tokens(b.drop_last());
        let c = b.last();
        if is_white(c) {
        } else if b.len() >= 2 {
            assert(ab[ab.len() - 2] == b[b.len() - 2]);
            if !is_white(b[b.len() - 2]) {
                lemma_ws_tokens_len(b.drop_last());
                assert((x + t).update((x + t).len() - 1, (x + t).last().push(c)) =~= x + t.update(
                    t.len() - 1,
                    t.last().push(c),
                ));
            } else {
                assert((x + t).push(seq![c]) =~= x + t.push(seq![c]));
            }
        } else {
            assert(b.drop_last() =~= Seq::<char>::empty());
            assert(ws_tokens(b.drop_last()) =~= Seq::<Seq<char>>::empty());
            if a.len() > 0 {
                assert(ab[ab.len() - 2] == a.last());
            }
            assert(x.push(seq![c]) =~= x + t.push(seq![c]));
        }
    }
}

/// The first index of `c` in `s`.
pub closed spec fn first_index_of(s: Seq<char>, c: char) -> Option<int> {
    if exists|i: int| 0 <= i < s.len() && s[i] == c {
        Some(
            choose|i: int|
                0 <= i < s.len() && s[i] == c && forall|j: int| 0 <= j < i ==> s[j] != c,
        )
    } else {
        None
    }
}

proof fn lemma_first_occurrence_exists(s: Seq<char>, c: char, i: int)
    requires
        0 <= i < s.len(),
        s[i] == c,
    ensures
        exists|k: int| 0 <= k < s.len() && s[k] == c && forall|j: int| 0 <= j < k ==> s[j] != c,
    decreases i,
{
    if exists|j: int| 0 <= j < i && s[j] == c {
        let j = choose|j: int| 0 <= j < i && s[j] == c;
        lemma_first_occurrence_exists(s, c, j);
    } else {
        assert(forall|j: int| 0 <= j < i ==> s[j] != c);
    }
}

pub proof fn lemma_first_index_of_bounds(s: Seq<char>, c: char)
    ensures
        first_index_of(s, c) matches Some(i) ==> 0 <= i < s.len() && s[i] == c,
{
    if exists|i: int| 0 <= i < s.len() && s[i] == c {
        let i = choose|i: int| 0 <= i < s.len() && s[i] == c;
        lemma_first_occurrence_exists(s, c, i);
    }
}

/// What `first_index_of` gives: the least index of `c`, or `None` when `s`
/// holds no `c`.
pub proof fn lemma_first_index_of_unfold(s: Seq<char>, c: char)
    ensures
        first_index_of(s, c) matches Some(i) ==> 0 <= i < s.len() && s[i] == c && forall|j: int|
            0 <= j < i ==> s[j] != c,
        first_index_of(s, c) is None <==> forall|i: int| 0 <= i < s.len() ==> s[i] != c,
{
    if exists|i: int| 0 <= i < s.len() && s[i] == c {
        let i = choose|i: int| 0 <= i < s.len() && s[i] == c;
        lemma_first_occurrence_exists(s, c, i);
    }
}

pub proof fn lemma_first_index_of_none(s: Seq<char>, c: char)
    ensures
        first_index_of(s, c) is None ==> forall|i: int| 0 <= i < s.len() ==> s[i] != c,
{
}

pub proof fn lemma_first_index_of(s: Seq<char>, c: char, i: int)
    requires
        0 <= i < s.len(),
        s[i] == c,
        forall|j: int| 0 <= j < i ==> s[j] != c,
    ensures
        first_index_of(s, c) == Some(i),
{
    let k = choose|k: int| 0 <= k < s.len() && s[k] == c && forall|j: int| 0 <= j < k ==> s[j] != c;
    assert(0 <= k < s.len() && s[k] == c && forall|j: int| 0 <= j < k ==> s[j] != c);
    if k < i {
        assert(s[k] != c);
    }
    if i < k {
        assert(s[i] != c);
    }
}

/// Index, in `v`, of the first `c` in `v[lo..hi]`.
pub fn find_char(v: &Vec<char>, lo: usize, hi: usize, c: char) -> (r: Option<usize>)
    requires
        lo <= hi <= v@.len(),
    ensures
        r matches Some(i) ==> lo <= i < hi && v@[i as int] == c && first_index_of(
            v@.subrange(lo as int, hi as int),
            c,
        ) == Some(i - lo),
        r is None ==> first_index_of(v@.subrange(lo as int, hi as int), c) is None,
{
    let ghost s = v@.subrange(lo as int, hi as int);
    let mut i = lo;
    while i < hi
        invariant
            lo <= i <= hi <= v@.len(),
            s == v@.subrange(lo as int, hi as int),
            forall|j: int| 0 <= j < i - lo ==> s[j] != c,
        decreases hi - i,
    {
        if v[i] == c {
            proof {
                lemma_first_index_of(s, c, i - lo);
            }
            return Some(i);
        }
        i = i + 1;
    }
    assert(!(exists|i: int| 0 <= i < s.len() && s[i] == c));
    None
}

/// The first index at which `s` holds `c1` followed by `c2`.
pub closed spec fn first_pair_index(s: Seq<char>, c1: char, c2: char) -> Option<int> {
    if exists|i: int| 0 <= i && i + 1 < s.len() && #[trigger] s[i] == c1 && s[i + 1] == c2 {
        Some(
            choose|i: int|
                0 <= i && i + 1 < s.len() && #[trigger] s[i] == c1 && s[i + 1] == c2 && forall|j: int|
                    0 <= j < i ==> !(#[trigger] s[j] == c1 && s[j + 1] == c2),
        )
    } else {
        None
    }
}

proof fn lemma_first_pair_exists(s: Seq<char>, c1: char, c2: char, i: int)
    requires
        0 <= i && i + 1 < s.len(),
        s[i] == c1 && s[i + 1] == c2,
    ensures
        exists|k: int|
            0 <= k && k + 1 < s.len() && #[trigger] s[k] == c1 && s[k + 1] == c2 && forall|j: int|
                0 <= j < k ==> !(#[trigger] s[j] == c1 && s[j + 1] == c2),
    decreases i,
{
    if exists|j: int| 0 <= j < i && #[trigger] s[j] == c1 && s[j + 1] == c2 {
        let j = choose|j: int| 0 <= j < i && #[trigger] s[j] == c1 && s[j + 1] == c2;
        lemma_first_pair_exists(s, c1, c2, j);
    } else {
        assert(forall|j: int| 0 <= j < i ==> !(#[trigger] s[j] == c1 && s[j + 1] == c2));
        assert(s[i] == c1);
    }
}

/// What `first_pair_index` gives: the least index at which `c1` is followed
/// by `c2`, or `None` when there is none.
pub proof fn lemma_first_pair_index_unfold(s: Seq<char>, c1: char, c2: char)
    ensures
        first_pair_index(s, c1, c2) matches Some(i) ==> 0 <= i && i + 1 < s.len() && s[i] == c1
            && s[i + 1] == c2 && forall|j: int|
            0 <= j < i ==> !(#[trigger] s[j] == c1 && s[j + 1] == c2),
        first_pair_index(s, c1, c2) is None <==> forall|i: int|
            0 <= i && i + 1 < s.len() ==> !(#[trigger] s[i] == c1 && s[i + 1] == c2),
{
    if exists|i: int| 0 <= i && i + 1 < s.len() && #[trigger] s[i] == c1 && s[i + 1] == c2 {
        let i = choose|i: int| 0 <= i && i + 1 < s.len() && #[trigger] s[i] == c1 && s[i + 1] == c2;
        lemma_first_pair_exists(s, c1, c2, i);
    }
}

pub proof fn lemma_first_pair_index(s: Seq<char>, c1: char, c2: char, k: int)
    requires
        0 <= k && k + 1 < s.len(),
        s[k] == c1 && s[k + 1] == c2,
        forall|j: int| 0 <= j < k ==> !(#[trigger] s[j] == c1 && s[j + 1] == c2),
    ensures
        first_pair_index(s, c1, c2) == Some(k),
{
    let w = choose|w: int|
        0 <= w && w + 1 < s.len() && #[trigger] s[w] == c1 && s[w + 1] == c2 && forall|j: int|
            0 <= j < w ==> !(#[trigger] s[j] == c1 && s[j + 1] == c2);
    assert(0 <= k && k + 1 < s.len() && s[k] == c1 && s[k + 1] == c2);
    if w < k {
        assert(!(s[w] == c1 && s[w + 1] == c2));
    }
    if k < w {
        assert(!(s[k] == c1 && s[k + 1] == c2));
    }
}

/// Index, in `v`, of the first `c1` followed by `c2` in `v[lo..hi]`.
pub fn find_pair(v: &Vec<char>, lo: usize, hi: usize, c1: char, c2: char) -> (r: Option<usize>)
    requires
        lo <= hi <= v@.len(),
    ensures
        r matches Some(i) ==> lo <= i && i + 1 < hi && first_pair_index(
            v@.subrange(lo as int, hi as int),
            c1,
            c2,
        ) == Some(i - lo),
        r is None ==> first_pair_index(v@.subrange(lo as int, hi as int), c1, c2) is None,
{
    let ghost s = v@.subrange(lo as int, hi as int);
    let mut i = lo;
    while hi - i > 1
        invariant
            lo <= i <= hi <= v@.len(),
            s == v@.subrange(lo as int, hi as int),
            forall|j: int| 0 <= j < i - lo ==> !(#[trigger] s[j] == c1 && s[j + 1] == c2),
        decreases hi - i,
    {
        if v[i] == c1 && v[i + 1] == c2 {
            proof {
                lemma_first_pair_index(s, c1, c2, i - lo);
            }
            return Some(i);
        }
        proof {
            assert(s[i - lo] == v@[i as int]);
            assert(s[i - lo + 1] == v@[i + 1]);
        }
        i = i + 1;
    }
    assert(!(exists|i: int| 0 <= i && i + 1 < s.len() && #[trigger] s[i] == c1 && s[i + 1] == c2));
    None
}

/// Whether `v[lo..hi]` spells `lit`.
pub fn range_eq_str(v: &Vec<char>, lo: usize, hi: usize, lit: &str) -> (b: bool)
    requires
        lo <= hi <= v@.len(),
    ensures
        b == (v@.subrange(lo as int, hi as int) == lit@),
{
    let n = lit.unicode_len();
    if hi - lo != n {
        return false;
    }
    let mut i: usize = 0;
    while i < n
        invariant
            lo <= hi <= v@.len(),
            n == lit@.len(),
            hi - lo == n,
            i <= n,
            forall|j: int| 0 <= j < i ==> v@[lo + j] == lit@[j],
        decreases n - i,
    {
        if v[lo + i] != lit.get_char(i) {
            assert(v@.subrange(lo as int, hi as int)[i as int] != lit@[i as int]);
            return false;
        }
        i = i + 1;
    }
    assert(v@.subrange(lo as int, hi as int) =~= lit@);
    true
}

/// Whether `lit` is a prefix of `v[lo..hi]`.
pub fn range_starts_with(v: &Vec<char>, lo: usize, hi: usize, lit: &str) -> (b: bool)
    requires
        lo <= hi <= v@.len(),
    ensures
        b == lit@.is_prefix_of(v@.subrange(lo as int, hi as int)),
{
    let n = lit.unicode_len();
    if hi - lo < n {
        return false;
    }
    let r = range_eq_str(v, lo, lo + n, lit);
    assert(v@.subrange(lo as int, hi as int).subrange(0, n as int) =~= v@.subrange(
        lo as int,
        lo + n,
    ));
    r
}

/// `s` without one trailing carriage return.
pub open spec fn strip_cr(s: Seq<char>) -> Seq<char> {
    if s.len() > 0 && s.last() == '\r' {
        s.drop_last()
    } else {
        s
    }
}

/// The lines of `s`, as `str::lines` gives them: pieces ended by a newline
/// (its carriage return before it dropped), then what follows the last
/// newline if it is not empty.
pub open spec fn text_lines(s: Seq<char>) -> Seq<Seq<char>> {
    let parts = split_char(s, '\n');
    if s.len() == 0 {
        Seq::empty()
    } else if s.last() == '\n' {
        parts.drop_last().map_values(|p: Seq<char>| strip_cr(p))
    } else {
        parts.drop_last().map_values(|p: Seq<char>| strip_cr(p)).push(parts.last())
    }
}

/// The lines of `s` (see `text_lines`).
pub fn lines_of(s: &str) -> (lines: Vec<String>)
    ensures
        lines@.map_values(|l: String| l@) == text_lines(s@),
{
    let v = chars_of(s);
    let n = v.len();
    assert(v@.subrange(0, n as int) =~= s@);
    let ranges = split_ranges(&v, 0, n, '\n');
    let ghost parts = split_char(s@, '\n');
    let mut lines: Vec<String> = Vec::new();
    if n == 0 {
        assert(lines@.map_values(|l: String| l@) =~= text_lines(s@));
        return lines;
    }
    proof {
        lemma_split_char_nonempty(s@, '\n');
    }
    let last = ranges.len() - 1;
    let mut k: usize = 0;
    while k < last
        invariant
            n == v@.len() > 0,
            v@ == s@,
            ranges@.len() == parts.len(),
            parts == split_char(s@, '\n'),
            forall|j: int|
                0 <= j < ranges@.len() ==> 0 <= (#[trigger] ranges@[j]).0 <= ranges@[j].1 <= n
                    && v@.subrange(ranges@[j].0 as int, ranges@[j].1 as int) == parts[j],
            last + 1 == ranges@.len(),
            k <= last,
            lines@.map_values(|l: String| l@) == parts.take(k as int).map_values(
                |p: Seq<char>| strip_cr(p),
            ),
        decreases ranges@.len() - k,
    {
        let (a, b) = ranges[k];
        let mut e = b;
        if e > a && v[e - 1] == '\r' {
            e = e - 1;
        }
        let line = string_of_range(&v, a, e);
        proof {
            let p = parts[k as int];
            if b > a && v@[b - 1] == '\r' {
                assert(v@.subrange(a as int, e as int) =~= p.drop_last());
            } else {
                assert(v@.subrange(a as int, e as int) =~= p);
            }
        }
        let ghost before = lines@;
        lines.push(line);
        assert(lines@.map_values(|l: String| l@) =~= before.map_values(|l: String| l@).push(line@));
        assert(parts.take(k + 1).map_values(|p: Seq<char>| strip_cr(p)) =~= parts.take(
            k as int,
        ).map_values(|p: Seq<char>| strip_cr(p)).push(strip_cr(parts[k as int])));
        k = k + 1;
    }
    proof {
        lemma_split_char_nonempty(s@, '\n');
        assert(parts.take(k as int) =~= parts.drop_last());
    }
    if v[n - 1] != '\n' {
        let (a, b) = ranges[k];
        let line = string_of_range(&v, a, b);
        let ghost before = lines@;
        lines.push(line);
        assert(lines@.map_values(|l: String| l@) =~= before.map_values(|l: String| l@).push(line@));
    }
    assert(lines@.map_values(|l: String| l@) =~= text_lines(s@));
    lines
}

/// Whether `a` and `b` hold the same characters.
pub fn str_eq(a: &str, b: &str) -> (eq: bool)
    ensures
        eq == (a@ == b@),
{
    let a_owned = a.to_string();
    let b_owned = b.to_string();
    a_owned == b_owned
}

/// Appends `c` to `s` (`String::push`).
#[verifier::external_body]
fn push_char(s: &mut String, c: char)
    ensures
        final(s)@ == old(s)@.push(c),
{
    s.push(c);
}

/// Appends the decimal digits of `n` to `out`.
pub fn push_decimal_text(out: &mut String, n: usize)
    ensures
        final(out)@ == old(out)@ + decimal_chars(n as nat),
    decreases n,
{
    if n >= 10 {
        push_decimal_text(out, n / 10);
    }
    let digit = (48 + n % 10) as u8;
    push_char(out, digit as char);
    assert(final(out)@ =~= old(out)@ + decimal_chars(n as nat));
}

/// The string made of the characters `v[lo..hi]`.
pub fn string_of_range(v: &Vec<char>, lo: usize, hi: usize) -> (s: String)
    requires
        lo <= hi <= v@.len(),
    ensures
        s@ == v@.subrange(lo as int, hi as int),
{
    let mut s = String::new();
    let mut i = lo;
    while i < hi
        invariant
            lo <= i <= hi <= v@.len(),
            s@ == v@.subrange(lo as int, i as int),
        decreases hi - i,
    {
        push_char(&mut s, v[i]);
        assert(v@.subrange(lo as int, i + 1) =~= v@.subrange(lo as int, i as int).push(v@[i as int]));
        i = i + 1;
    }
    s
}

} // verus!
