//! Text helpers shared by the plugins: character-indexed slicing, decimal
//! parsing and lower-case hexadecimal rendering.
use substring::Substring;
use vstd::prelude::*;

verus! {

/// The characters of `s` from index `start` up to `end`, both clamped to the
/// length of `s`; empty when `end <= start`.
pub open spec fn char_slice(s: Seq<char>, start: int, end: int) -> Seq<char> {
    if end <= start || start >= s.len() {
        Seq::empty()
    } else if end >= s.len() {
        s.subrange(start, s.len() as int)
    } else {
        s.subrange(start, end)
    }
}

/// Relies on `substring::Substring::substring`: the characters from index
/// `start` to `end`, clamped to the string's length, and "" when
/// `end <= start`.
#[verifier::external_body]
pub(crate) fn substring(s: &str, start: usize, end: usize) -> (r: String)
    ensures
        r@ == char_slice(s@, start as int, end as int),
{
    s.substring(start, end).to_string()
}

pub open spec fn is_digit(c: char) -> bool {
    '0' <= c && c <= '9'
}

pub open spec fn digit_value(c: char) -> nat {
    (c as u32 - '0' as u32) as nat
}

pub open spec fn all_digits(s: Seq<char>) -> bool {
    forall|i: int| 0 <= i < s.len() ==> is_digit(#[trigger] s[i])
}

/// The number that a string of decimal digits denotes.
pub open spec fn digits_value(s: Seq<char>) -> nat
    decreases s.len(),
{
    if s.len() == 0 {
        0
    } else {
        digits_value(s.drop_last()) * 10 + digit_value(s.last())
    }
}

/// The digits of an unsigned number as text: an optional leading `+` is
/// dropped.
pub open spec fn unsigned_digits(s: Seq<char>) -> Seq<char> {
    if s.len() > 0 && s[0] == '+' {
        s.drop_first()
    } else {
        s
    }
}

/// What reading `s` as an unsigned decimal no larger than `max` gives: one or
/// more digits after an optional `+`, whose value fits.
pub open spec fn parse_unsigned(s: Seq<char>, max: nat) -> Option<nat> {
    let d = unsigned_digits(s);
    if d.len() > 0 && all_digits(d) && digits_value(d) <= max {
        Some(digits_value(d))
    } else {
        None
    }
}

proof fn lemma_digits_value_monotonic(s: Seq<char>, i: int, j: int)
    requires
        all_digits(s),
        0 <= i <= j <= s.len(),
    ensures
        digits_value(s.subrange(0, i)) <= digits_value(s.subrange(0, j)),
    decreases j - i,
{
    if i < j {
        lemma_digits_value_monotonic(s, i, j - 1);
        assert(s.subrange(0, j).drop_last() =~= s.subrange(0, j - 1));
    }
}

/// Reads `s` as an unsigned decimal number no larger than `max`.
pub fn parse_unsigned_bounded(s: &str, max: u64) -> (r: Option<u64>)
    ensures
        r matches Some(v) ==> parse_unsigned(s@, max as nat) == Some(v as nat),
        r is None ==> parse_unsigned(s@, max as nat) is None,
{
    let n = s.unicode_len();
    let mut start: usize = 0;
    if n > 0 && s.get_char(0) == '+' {
        start = 1;
    }
    let ghost d = unsigned_digits(s@);
    assert(d =~= s@.subrange(start as int, n as int));
    if start == n {
        return None;
    }
    let mut acc: u128 = 0;
    let mut too_big = false;
    let mut i: usize = start;
    while i < n
        invariant
            start <= i <= n,
            n == s@.len(),
            d =~= s@.subrange(start as int, n as int),
            d == unsigned_digits(s@),
            forall|k: int| 0 <= k < i - start ==> is_digit(#[trigger] d[k]),
            !too_big ==> acc == digits_value(d.subrange(0, i - start)) && acc <= max,
            too_big ==> digits_value(d.subrange(0, i - start)) > max,
        decreases n - i,
    {
        let c = s.get_char(i);
        if !('0' <= c && c <= '9') {
            assert(d[i - start] == s@[i as int]);
            assert(!is_digit(d[i - start]));
            assert(!all_digits(d));
            return None;
        }
        let ghost prefix = d.subrange(0, i - start + 1);
        assert(prefix.drop_last() =~= d.subrange(0, i - start));
        assert(prefix.last() == c);
        if !too_big {
            acc = acc * 10 + (c as u32 - '0' as u32) as u128;
            if acc > max as u128 {
                too_big = true;
            }
        } else {
            assert forall|k: int| 0 <= k < i - start + 1 implies is_digit(#[trigger] prefix[k]) by {}
            proof {
                lemma_digits_value_monotonic(prefix, i - start, i - start + 1);
                assert(prefix.subrange(0, i - start) =~= d.subrange(0, i - start));
                assert(prefix.subrange(0, i - start + 1) =~= prefix);
            }
        }
        i = i + 1;
    }
    assert(d.subrange(0, n - start) =~= d);
    if too_big {
        None
    } else {
        Some(acc as u64)
    }
}

/// The digit character for `d` (below sixteen), lower case past nine.
pub open spec fn digit_char(d: nat) -> char {
    "0123456789abcdef"@[d as int]
}

/// The digits of `n` written in base `b`, most significant first, without
/// leading zeros ("0" for zero).
pub open spec fn radix_digits(n: nat, b: nat) -> Seq<char>
    recommends
        2 <= b <= 16,
    decreases n,
    via radix_digits_decreases
{
    if n < b || b < 2 {
        seq![digit_char(n % b)]
    } else {
        radix_digits(n / b, b).push(digit_char(n % b))
    }
}

#[via_fn]
proof fn radix_digits_decreases(n: nat, b: nat) {
    if !(n < b || b < 2) {
        assert(n / b < n) by (nonlinear_arith)
            requires
                n >= b,
                b >= 2,
        ;
    }
}

/// Writes `n` in base `b` with lower-case digits.
pub fn radix_text(n: u64, b: u64) -> (r: String)
    requires
        2 <= b <= 16,
    ensures
        r@ == radix_digits(n as nat, b as nat),
    decreases n,
{
    let digits = "0123456789abcdef";
    proof {
        reveal_strlit("0123456789abcdef");
    }
    let d = (n % b) as usize;
    let last = digits.substring_char(d, d + 1);
    assert(last@ =~= seq![digit_char((n % b) as nat)]);
    if n < b {
        last.to_string()
    } else {
        let head = radix_text(n / b, b);
        let r = head.concat(last);
        assert(r@ =~= radix_digits(n as nat, b as nat));
        r
    }
}

/// Name-value pairs of strings, seen as pairs of character sequences.
pub open spec fn pairs_view(v: Seq<(String, String)>) -> Seq<(Seq<char>, Seq<char>)> {
    v.map_values(|p: (String, String)| (p.0@, p.1@))
}

/// The name-value pairs of an `application/x-www-form-urlencoded` string,
/// decoded, in order.
pub uninterp spec fn form_pairs_of(q: Seq<char>) -> Seq<(Seq<char>, Seq<char>)>;

/// Relies on `url::form_urlencoded::parse`: the pairs of the query `q`,
/// percent-decoded, in order.
#[verifier::external_body]
pub(crate) fn form_pairs(q: &str) -> (r: Vec<(String, String)>)
    ensures
        pairs_view(r@) == form_pairs_of(q@),
        q@.len() == 0 ==> r@.len() == 0,
{
    url::form_urlencoded::parse(q.as_bytes()).map(|(k, v)| (k.into_owned(), v.into_owned())).collect()
}

pub open spec fn opt_view(o: Option<String>) -> Option<Seq<char>> {
    match o {
        Some(v) => Some(v@),
        None => None,
    }
}

/// The value of the first pair named `name`.
pub open spec fn lookup(pairs: Seq<(Seq<char>, Seq<char>)>, name: Seq<char>) -> Option<Seq<char>>
    decreases pairs.len(),
{
    if pairs.len() == 0 {
        None
    } else if pairs[0].0 == name {
        Some(pairs[0].1)
    } else {
        lookup(pairs.drop_first(), name)
    }
}

/// The two characters are equal but for ASCII case.
pub open spec fn same_letter(a: char, b: char) -> bool {
    a == b || ('A' <= a <= 'Z' && b as u32 == a as u32 + 32) || ('a' <= a <= 'z' && a as u32
        == b as u32 + 32)
}

pub open spec fn eq_ignore_case(a: Seq<char>, b: Seq<char>) -> bool {
    a.len() == b.len() && forall|i: int| 0 <= i < a.len() ==> same_letter(#[trigger] a[i], b[i])
}

/// The value of the first pair whose name equals `name` but for ASCII case.
pub open spec fn lookup_ignore_case(pairs: Seq<(Seq<char>, Seq<char>)>, name: Seq<char>) -> Option<
    Seq<char>,
>
    decreases pairs.len(),
{
    if pairs.len() == 0 {
        None
    } else if eq_ignore_case(pairs[0].0, name) {
        Some(pairs[0].1)
    } else {
        lookup_ignore_case(pairs.drop_first(), name)
    }
}

pub fn str_eq(a: &str, b: &str, fold: bool) -> (r: bool)
    ensures
        !fold ==> r == (a@ == b@),
        fold ==> r == eq_ignore_case(a@, b@),
{
    let n = a.unicode_len();
    if n != b.unicode_len() {
        return false;
    }
    let mut i: usize = 0;
    while i < n
        invariant
            n == a@.len() == b@.len(),
            i <= n,
            forall|j: int| 0 <= j < i ==> if fold { same_letter(a@[j], b@[j]) } else { a@[j] == b@[j] },
        decreases n - i,
    {
        let x = a.get_char(i);
        let y = b.get_char(i);
        let same = if fold {
            x == y || ('A' <= x && x <= 'Z' && y as u32 == x as u32 + 32) || ('a' <= x && x <= 'z'
                && x as u32 == y as u32 + 32)
        } else {
            x == y
        };
        if !same {
            assert(!same_letter(a@[i as int], b@[i as int]) || !fold);
            return false;
        }
        i = i + 1;
    }
    if !fold {
        assert(a@ =~= b@);
    }
    true
}

/// The value of the first pair named `name`; with `fold`, names are compared
/// without regard to ASCII case.
pub fn find_value(pairs: &Vec<(String, String)>, name: &str, fold: bool) -> (r: Option<String>)
    ensures
        !fold ==> opt_view(r) == lookup(pairs_view(pairs@), name@),
        fold ==> opt_view(r) == lookup_ignore_case(pairs_view(pairs@), name@),
{
    let ghost pv = pairs_view(pairs@);
    let mut i: usize = 0;
    assert(pv.subrange(0, pairs@.len() as int) =~= pv);
    while i < pairs.len()
        invariant
            i <= pairs@.len(),
            pv == pairs_view(pairs@),
            !fold ==> lookup(pv, name@) == lookup(pv.subrange(i as int, pairs@.len() as int), name@),
            fold ==> lookup_ignore_case(pv, name@) == lookup_ignore_case(
                pv.subrange(i as int, pairs@.len() as int),
                name@,
            ),
        decreases pairs@.len() - i,
    {
        assert(pv[i as int] == (pairs@[i as int].0@, pairs@[i as int].1@));
        let ghost rest = pv.subrange(i as int, pairs@.len() as int);
        assert(rest.drop_first() =~= pv.subrange(i + 1, pairs@.len() as int));
        assert(rest[0] == pv[i as int]);
        if str_eq(pairs[i].0.as_str(), name, fold) {
            return Some(pairs[i].1.clone());
        }
        i = i + 1;
    }
    None
}

proof fn lemma_digit_chars(d: nat, e: nat)
    requires
        d < 16,
        e < 16,
    ensures
        digit_char(d) != '-',
        digit_char(d) == digit_char(e) ==> d == e,
{
    reveal_strlit("0123456789abcdef");
    let s = "0123456789abcdef"@;
    assert(s =~= seq!['0', '1', '2', '3', '4', '5', '6', '7', '8', '9', 'a', 'b', 'c', 'd', 'e', 'f']);
}

proof fn lemma_radix_digits_len(n: nat, b: nat)
    requires
        2 <= b <= 16,
    ensures
        radix_digits(n, b).len() >= 1,
        n >= b ==> radix_digits(n, b).len() >= 2,
    decreases n,
{
    if n >= b {
        assert(n / b < n) by (nonlinear_arith)
            requires
                n >= b,
                b >= 2,
        ;
        lemma_radix_digits_len(n / b, b);
    }
}

/// No digit string holds a dash.
pub proof fn lemma_radix_digits_no_dash(n: nat, b: nat)
    requires
        2 <= b <= 16,
    ensures
        forall|i: int| 0 <= i < radix_digits(n, b).len() ==> #[trigger] radix_digits(n, b)[i] != '-',
    decreases n,
{
    lemma_digit_chars(n % b, 0);
    let d = radix_digits(n, b);
    if n >= b {
        assert(n / b < n) by (nonlinear_arith)
            requires
                n >= b,
                b >= 2,
        ;
        lemma_radix_digits_no_dash(n / b, b);
        assert(d == radix_digits(n / b, b).push(digit_char(n % b)));
        assert forall|i: int| 0 <= i < d.len() implies #[trigger] d[i] != '-' by {
            if i < d.len() - 1 {
                assert(d[i] == radix_digits(n / b, b)[i]);
            }
        }
    } else {
        assert(d == seq![digit_char(n % b)]);
    }
}

/// Different numbers have different digits.
pub proof fn lemma_radix_digits_injective(m: nat, n: nat, b: nat)
    requires
        2 <= b <= 16,
        radix_digits(m, b) == radix_digits(n, b),
    ensures
        m == n,
    decreases m,
{
    lemma_radix_digits_len(m, b);
    lemma_radix_digits_len(n, b);
    lemma_digit_chars(m % b, n % b);
    if m < b && n < b {
        assert(m % b == m && n % b == n) by (nonlinear_arith)
            requires
                m < b,
                n < b,
        ;
        assert(radix_digits(m, b)[0] == digit_char(m % b));
        assert(radix_digits(n, b)[0] == digit_char(n % b));
    } else if m >= b && n >= b {
        assert(m / b < m) by (nonlinear_arith)
            requires
                m >= b,
                b >= 2,
        ;
        let (dm, dn) = (radix_digits(m, b), radix_digits(n, b));
        assert(dm.last() == digit_char(m % b));
        assert(dn.last() == digit_char(n % b));
        assert(dm.drop_last() =~= radix_digits(m / b, b));
        assert(dn.drop_last() =~= radix_digits(n / b, b));
        lemma_radix_digits_injective(m / b, n / b, b);
        assert(m == b * (m / b) + m % b) by (nonlinear_arith)
            requires
                b >= 2,
        ;
        assert(n == b * (n / b) + n % b) by (nonlinear_arith)
            requires
                b >= 2,
        ;
    }
}

/// `s` cut at every `sep`: one more piece than there are separators.
pub open spec fn split_on(s: Seq<char>, sep: char) -> Seq<Seq<char>>
    decreases s.len(),
{
    if s.len() == 0 {
        seq![Seq::empty()]
    } else {
        let p = split_on(s.drop_last(), sep);
        if s.last() == sep {
            p.push(Seq::empty())
        } else {
            p.update(p.len() - 1, p.last().push(s.last()))
        }
    }
}

/// Splitting gives at least one piece.
pub proof fn lemma_split_on_len(s: Seq<char>, sep: char)
    ensures
        split_on(s, sep).len() >= 1,
    decreases s.len(),
{
    if s.len() > 0 {
        lemma_split_on_len(s.drop_last(), sep);
    }
}

/// The pieces of `s` between the separators `sep`.
pub fn split_text(s: &str, sep: char) -> (r: Vec<String>)
    ensures
        r@.map_values(|p: String| p@) == split_on(s@, sep),
{
    let n = s.unicode_len();
    let mut done: Vec<String> = Vec::new();
    let mut start: usize = 0;
    let mut i: usize = 0;
    assert(s@.subrange(0, 0) =~= Seq::<char>::empty());
    while i < n
        invariant
            n == s@.len(),
            start <= i <= n,
            done@.map_values(|p: String| p@).push(s@.subrange(start as int, i as int)) == split_on(
                s@.subrange(0, i as int),
                sep,
            ),
        decreases n - i,
    {
        let ghost pre = s@.subrange(0, i as int);
        let ghost next = s@.subrange(0, i + 1);
        assert(next.drop_last() =~= pre);
        assert(next.last() == s@[i as int]);
        let ghost p = split_on(pre, sep);
        proof {
            lemma_split_on_len(pre, sep);
        }
        let c = s.get_char(i);
        if c == sep {
            let piece = s.substring_char(start, i);
            done.push(piece.to_string());
            start = i + 1;
            assert(s@.subrange(start as int, i + 1) =~= Seq::<char>::empty());
        } else {
            assert(s@.subrange(start as int, i + 1) =~= s@.subrange(start as int, i as int).push(c));
            assert(done@.map_values(|p: String| p@).push(s@.subrange(start as int, i + 1))
                =~= p.update(p.len() - 1, p.last().push(c)));
        }
        i = i + 1;
    }
    assert(s@.subrange(0, n as int) =~= s@);
    let last = s.substring_char(start, n);
    done.push(last.to_string());
    assert(done@.map_values(|p: String| p@) =~= split_on(s@, sep));
    done
}

/// `s` without its leading spaces.
pub open spec fn trim_start(s: Seq<char>) -> Seq<char>
    decreases s.len(),
{
    if s.len() > 0 && s[0] == ' ' {
        trim_start(s.drop_first())
    } else {
        s
    }
}

/// `s` without its trailing spaces.
pub open spec fn trim_end(s: Seq<char>) -> Seq<char>
    decreases s.len(),
{
    if s.len() > 0 && s.last() == ' ' {
        trim_end(s.drop_last())
    } else {
        s
    }
}

pub open spec fn trim(s: Seq<char>) -> Seq<char> {
    trim_end(trim_start(s))
}

/// `s` without leading and trailing spaces.
pub fn trim_text(s: &str) -> (r: String)
    ensures
        r@ == trim(s@),
{
    let n = s.unicode_len();
    let mut lo: usize = 0;
    assert(s@.subrange(0, n as int) =~= s@);
    while lo < n && s.get_char(lo) == ' '
        invariant
            n == s@.len(),
            lo <= n,
            trim_start(s@) == trim_start(s@.subrange(lo as int, n as int)),
        decreases n - lo,
    {
        assert(s@.subrange(lo as int, n as int).drop_first() =~= s@.subrange(lo + 1, n as int));
        lo = lo + 1;
    }
    let ghost t = s@.subrange(lo as int, n as int);
    assert(trim_start(s@) == t);
    let mut hi: usize = n;
    assert(t.subrange(0, (n - lo) as int) =~= t);
    while hi > lo && s.get_char(hi - 1) == ' '
        invariant
            n == s@.len(),
            lo <= hi <= n,
            t == s@.subrange(lo as int, n as int),
            trim_end(t) == trim_end(t.subrange(0, hi - lo)),
        decreases hi,
    {
        assert(t.subrange(0, hi - lo).drop_last() =~= t.subrange(0, hi - 1 - lo));
        hi = hi - 1;
    }
    let r = s.substring_char(lo, hi);
    assert(r@ =~= t.subrange(0, hi - lo));
    r.to_string()
}

/// `i` is the first position of `c` in `s`.
pub open spec fn first_at(s: Seq<char>, c: char, i: int) -> bool {
    0 <= i < s.len() && s[i] == c && forall|j: int| 0 <= j < i ==> s[j] != c
}

/// The position of the first `c` in `s`.
pub fn find_char(s: &str, c: char) -> (r: Option<usize>)
    ensures
        r matches Some(i) ==> first_at(s@, c, i as int),
        r is None ==> !s@.contains(c),
{
    let n = s.unicode_len();
    let mut i: usize = 0;
    while i < n
        invariant
            n == s@.len(),
            i <= n,
            forall|j: int| 0 <= j < i ==> s@[j] != c,
        decreases n - i,
    {
        if s.get_char(i) == c {
            return Some(i);
        }
        i = i + 1;
    }
    None
}

/// The name and value of one `name=value` piece of a cookie header, both
/// without surrounding spaces; `None` for a piece without `=`.
pub open spec fn cookie_pair(piece: Seq<char>) -> Option<(Seq<char>, Seq<char>)> {
    if piece.contains('=') {
        let i = choose|i: int| first_at(piece, '=', i);
        Some((trim(piece.subrange(0, i)), trim(piece.subrange(i + 1, piece.len() as int))))
    } else {
        None
    }
}

pub open spec fn cookie_pairs_from(pieces: Seq<Seq<char>>) -> Seq<(Seq<char>, Seq<char>)>
    decreases pieces.len(),
{
    if pieces.len() == 0 {
        Seq::empty()
    } else {
        let p = cookie_pairs_from(pieces.drop_last());
        match cookie_pair(pieces.last()) {
            Some(kv) => p.push(kv),
            None => p,
        }
    }
}

/// The cookies of a `Cookie` header: its `;`-separated `name=value` pieces.
pub open spec fn cookie_pairs_of(header: Seq<char>) -> Seq<(Seq<char>, Seq<char>)> {
    cookie_pairs_from(split_on(header, ';'))
}

/// Reads the cookies of a `Cookie` header.
pub fn cookie_pairs(header: &str) -> (r: Vec<(String, String)>)
    ensures
        pairs_view(r@) == cookie_pairs_of(header@),
{
    let pieces = split_text(header, ';');
    let ghost pv = pieces@.map_values(|p: String| p@);
    let mut out: Vec<(String, String)> = Vec::new();
    let mut k: usize = 0;
    assert(pv.subrange(0, 0) =~= Seq::<Seq<char>>::empty());
    while k < pieces.len()
        invariant
            k <= pieces@.len(),
            pv == pieces@.map_values(|p: String| p@),
            pairs_view(out@) == cookie_pairs_from(pv.subrange(0, k as int)),
        decreases pieces@.len() - k,
    {
        assert(pv.subrange(0, k + 1).drop_last() =~= pv.subrange(0, k as int));
        assert(pv.subrange(0, k + 1).last() == pieces@[k as int]@);
        let piece = pieces[k].as_str();
        match find_char(piece, '=') {
            Some(i) => {
                let n = piece.unicode_len();
                let name = trim_text(piece.substring_char(0, i));
                let value = trim_text(piece.substring_char(i + 1, n));
                proof {
                    assert(piece@.contains('='));
                    let j = choose|j: int| first_at(piece@, '=', j);
                    if j < i {
                        assert(piece@[j] == '=');
                    } else if j > i {
                        assert(piece@[i as int] == '=');
                    }
                }
                out.push((name, value));
                assert(pairs_view(out@) =~= cookie_pairs_from(pv.subrange(0, k as int)).push(
                    (name@, value@),
                ));
            },
            None => {},
        }
        k = k + 1;
    }
    assert(pv.subrange(0, pieces@.len() as int) =~= pv);
    out
}

} // verus!
