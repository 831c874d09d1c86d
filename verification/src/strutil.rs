//! Character-level string helpers shared by the registry and the parsers.

use vstd::prelude::*;

verus! {

/// ASCII whitespace, the separator of command words and listing fields.
pub open spec fn is_ws(c: char) -> bool {
    c == ' ' || c == '\t' || c == '\n' || c == '\r'
}

/// Tests one character for ASCII whitespace.
pub fn is_ws_exec(c: char) -> (r: bool)
    ensures
        r == is_ws(c),
{
    c == ' ' || c == '\t' || c == '\n' || c == '\r'
}

/// The first index at or after `i` holding a non-whitespace character,
/// or the length when none follows.
pub open spec fn skip_ws_from(s: Seq<char>, i: int) -> int
    decreases s.len() - i,
{
    if !(0 <= i < s.len()) {
        s.len() as int
    } else if !is_ws(s[i]) {
        i
    } else {
        skip_ws_from(s, i + 1)
    }
}

/// The end of the whitespace-free run starting at `i`: the first
/// whitespace index at or after `i`, or the length.
pub open spec fn token_end(s: Seq<char>, i: int) -> int
    decreases s.len() - i,
{
    if !(0 <= i < s.len()) {
        s.len() as int
    } else if is_ws(s[i]) {
        i
    } else {
        token_end(s, i + 1)
    }
}

pub proof fn lemma_skip_ws_bounds(s: Seq<char>, i: int)
    requires
        0 <= i <= s.len(),
    ensures
        i <= skip_ws_from(s, i) <= s.len(),
        skip_ws_from(s, i) < s.len() ==> !is_ws(s[skip_ws_from(s, i)]),
    decreases s.len() - i,
{
    if i < s.len() && is_ws(s[i]) {
        lemma_skip_ws_bounds(s, i + 1);
    }
}

pub proof fn lemma_token_end_bounds(s: Seq<char>, i: int)
    requires
        0 <= i <= s.len(),
    ensures
        i <= token_end(s, i) <= s.len(),
        i < s.len() && !is_ws(s[i]) ==> token_end(s, i) > i,
        token_end(s, i) < s.len() ==> is_ws(s[token_end(s, i)]),
    decreases s.len() - i,
{
    if i < s.len() && !is_ws(s[i]) {
        lemma_token_end_bounds(s, i + 1);
    }
}

/// The string without leading and trailing ASCII whitespace.
pub open spec fn trim_spec(s: Seq<char>) -> Seq<char> {
    let a = skip_ws_from(s, 0);
    if a == s.len() {
        Seq::empty()
    } else {
        s.subrange(a, rskip_ws(s, s.len() as int))
    }
}

/// The index just past the last non-whitespace character before `i`,
/// or zero when none precedes.
pub open spec fn rskip_ws(s: Seq<char>, i: int) -> int
    decreases i,
{
    if i <= 0 || i > s.len() {
        0
    } else if !is_ws(s[i - 1]) {
        i
    } else {
        rskip_ws(s, i - 1)
    }
}

pub proof fn lemma_rskip_ws_bounds(s: Seq<char>, i: int)
    requires
        0 <= i <= s.len(),
    ensures
        0 <= rskip_ws(s, i) <= i,
        rskip_ws(s, i) > 0 ==> !is_ws(s[rskip_ws(s, i) - 1]),
    decreases i,
{
    if 0 < i && is_ws(s[i - 1]) {
        lemma_rskip_ws_bounds(s, i - 1);
    }
}

/// A non-whitespace character at `j` keeps the trailing trim beyond it.
pub proof fn lemma_rskip_ws_beyond(s: Seq<char>, i: int, j: int)
    requires
        0 <= j < i <= s.len(),
        !is_ws(s[j]),
    ensures
        rskip_ws(s, i) > j,
    decreases i,
{
    if is_ws(s[i - 1]) {
        lemma_rskip_ws_beyond(s, i - 1, j);
    }
}

/// The trimmed string is empty or starts and ends without whitespace.
pub proof fn lemma_trim_props(s: Seq<char>)
    ensures
        trim_spec(s).len() > 0 ==> !is_ws(trim_spec(s)[0]),
        trim_spec(s).len() == 0 ==> skip_ws_from(s, 0) == s.len(),
{
    lemma_skip_ws_bounds(s, 0);
    let a = skip_ws_from(s, 0);
    if a < s.len() {
        lemma_rskip_ws_beyond(s, s.len() as int, a);
        lemma_rskip_ws_bounds(s, s.len() as int);
    }
}

/// Removes leading and trailing ASCII whitespace.
pub fn str_trim(s: &str) -> (r: &str)
    ensures
        r@ == trim_spec(s@),
{
    let n = s.unicode_len();
    let mut a: usize = 0;
    while a < n && is_ws_exec(s.get_char(a))
        invariant
            n == s@.len(),
            0 <= a <= n,
            skip_ws_from(s@, 0) == skip_ws_from(s@, a as int),
        decreases n - a,
    {
        a += 1;
    }
    proof {
        assert(skip_ws_from(s@, 0) == a as int);
    }
    if a == n {
        proof {
            reveal_strlit("");
            assert(""@ =~= trim_spec(s@));
        }
        return "";
    }
    let mut b: usize = n;
    while b > 0 && is_ws_exec(s.get_char(b - 1))
        invariant
            n == s@.len(),
            0 <= b <= n,
            rskip_ws(s@, n as int) == rskip_ws(s@, b as int),
        decreases b,
    {
        b -= 1;
    }
    proof {
        assert(rskip_ws(s@, n as int) == b as int);
        lemma_rskip_ws_beyond(s@, n as int, a as int);
    }
    s.substring_char(a, b)
}

/// The whitespace-separated words of the string, in order.
pub open spec fn tokens_from(s: Seq<char>, i: int) -> Seq<Seq<char>>
    decreases s.len() - i
        when 0 <= i <= s.len()
    via tokens_from_decreases
{
    let a = skip_ws_from(s, i);
    if a >= s.len() {
        Seq::empty()
    } else {
        seq![s.subrange(a, token_end(s, a))] + tokens_from(s, token_end(s, a))
    }
}

#[via_fn]
proof fn tokens_from_decreases(s: Seq<char>, i: int) {
    lemma_skip_ws_bounds(s, i);
    let a = skip_ws_from(s, i);
    if a < s.len() {
        lemma_token_end_bounds(s, a);
    }
}

/// Finds the end of the whitespace-free run starting at `start`.
pub fn command_token_end(s: &str, start: usize) -> (r: usize)
    requires
        start as int <= s@.len(),
    ensures
        r == token_end(s@, start as int),
        start <= r <= s@.len(),
{
    let n = s.unicode_len();
    let mut i = start;
    while i < n && !is_ws_exec(s.get_char(i))
        invariant
            n == s@.len(),
            start <= i <= n,
            token_end(s@, start as int) == token_end(s@, i as int),
        decreases n - i,
    {
        i += 1;
    }
    proof {
        assert(token_end(s@, start as int) == i as int);
    }
    i
}

/// The words of the whole string.
pub open spec fn tokens_spec(s: Seq<char>) -> Seq<Seq<char>> {
    tokens_from(s, 0)
}

/// Splits the string into whitespace-separated words.
pub fn tokenize(s: &str) -> (r: Vec<String>)
    ensures
        r@.map_values(|t: String| t@) == tokens_spec(s@),
{
    let n = s.unicode_len();
    let mut r: Vec<String> = Vec::new();
    let mut i: usize = 0;
    proof {
        assert(r@.map_values(|t: String| t@) + tokens_from(s@, 0) =~= tokens_from(s@, 0));
    }
    while i < n
        invariant
            n == s@.len(),
            0 <= i <= n,
            r@.map_values(|t: String| t@) + tokens_from(s@, i as int) == tokens_spec(s@),
        decreases n - i,
    {
        let ghost ipre = i as int;
        // Skip the separating whitespace.
        while i < n && is_ws_exec(s.get_char(i))
            invariant
                n == s@.len(),
                0 <= i <= n,
                skip_ws_from(s@, ipre) == skip_ws_from(s@, i as int),
                ipre <= i,
            decreases n - i,
        {
            i += 1;
        }
        proof {
            assert(skip_ws_from(s@, ipre) == i as int);
        }
        if i == n {
            proof {
                assert(tokens_from(s@, ipre) =~= Seq::<Seq<char>>::empty());
                assert(r@.map_values(|t: String| t@) + Seq::<Seq<char>>::empty()
                    =~= r@.map_values(|t: String| t@));
                assert(r@.map_values(|t: String| t@) + tokens_from(s@, i as int)
                    =~= tokens_spec(s@));
            }
        } else {
        let start = i;
        while i < n && !is_ws_exec(s.get_char(i))
            invariant
                n == s@.len(),
                start <= i <= n,
                token_end(s@, start as int) == token_end(s@, i as int),
            decreases n - i,
        {
            i += 1;
        }
        proof {
            assert(token_end(s@, start as int) == i as int);
        }
        let tok = s.substring_char(start, i).to_owned();
        let ghost rpre = r@.map_values(|t: String| t@);
        r.push(tok);
        proof {
            assert(tokens_from(s@, ipre) =~= seq![s@.subrange(start as int, i as int)]
                + tokens_from(s@, i as int));
            assert(r@.map_values(|t: String| t@) =~= rpre.push(s@.subrange(start as int, i as int)));
            assert(r@.map_values(|t: String| t@) + tokens_from(s@, i as int) =~= tokens_spec(s@));
        }
        }
    }
    proof {
        assert(tokens_from(s@, i as int) =~= Seq::<Seq<char>>::empty());
        assert(r@.map_values(|t: String| t@) + tokens_from(s@, i as int)
            =~= r@.map_values(|t: String| t@));
        assert(r@.map_values(|t: String| t@) == tokens_spec(s@));
    }
    r
}

/// How many ASCII whitespace characters the string holds.
pub open spec fn ws_count(s: Seq<char>) -> int
    decreases s.len(),
{
    if s.len() == 0 {
        0
    } else {
        ws_count(s.drop_last()) + if is_ws(s.last()) { 1int } else { 0int }
    }
}

/// Counts the ASCII whitespace characters of the string.
pub fn count_ws(s: &str) -> (r: usize)
    ensures
        r == ws_count(s@),
{
    let n = s.unicode_len();
    let mut r: usize = 0;
    let mut i: usize = 0;
    proof {
        assert(s@.take(0) =~= Seq::<char>::empty());
    }
    while i < n
        invariant
            n == s@.len(),
            0 <= i <= n,
            r <= i,
            r == ws_count(s@.take(i as int)),
        decreases n - i,
    {
        if is_ws_exec(s.get_char(i)) {
            r += 1;
        }
        proof {
            assert(s@.take(i as int + 1).drop_last() =~= s@.take(i as int));
            assert(s@.take(i as int + 1).last() == s@[i as int]);
        }
        i += 1;
    }
    proof {
        assert(s@.take(n as int) =~= s@);
    }
    r
}

/// Whether `s` begins with the word `p`.
pub open spec fn starts_with_spec(s: Seq<char>, p: Seq<char>) -> bool {
    s.len() >= p.len() && s.take(p.len() as int) == p
}

/// Tests whether `s` begins with `p`.
pub fn str_starts_with(s: &str, p: &str) -> (r: bool)
    ensures
        r == starts_with_spec(s@, p@),
{
    let n = s.unicode_len();
    let m = p.unicode_len();
    if n < m {
        return false;
    }
    let mut i: usize = 0;
    while i < m
        invariant
            n == s@.len(),
            m == p@.len(),
            m <= n,
            0 <= i <= m,
            forall|j: int| 0 <= j < i ==> s@[j] == p@[j],
        decreases m - i,
    {
        if s.get_char(i) != p.get_char(i) {
            proof {
                assert(s@.take(m as int)[i as int] != p@[i as int]);
            }
            return false;
        }
        i += 1;
    }
    proof {
        assert(s@.take(m as int) =~= p@);
    }
    true
}

/// One step of decimal parsing: reject a non-digit or an overflow,
/// otherwise append the digit.
pub open spec fn parse_u64_step(acc: Option<u64>, c: char) -> Option<u64> {
    match acc {
        Option::None => Option::None,
        Option::Some(a) => {
            let v = c as u32;
            if v < 48 || v > 57 {
                Option::None
            } else {
                let d = (v - 48) as u64;
                if a <= (u64::MAX - d) / 10 {
                    Option::Some((a * 10 + d) as u64)
                } else {
                    Option::None
                }
            }
        },
    }
}

/// The number a decimal field denotes, when it denotes one: `None` for
/// an empty field, a non-digit, or a value beyond `u64::MAX`.
pub open spec fn parse_u64_opt_spec(s: Seq<char>) -> Option<u64> {
    if s.len() == 0 {
        Option::None
    } else {
        s.fold_left(Option::Some(0u64), |acc: Option<u64>, c: char| parse_u64_step(acc, c))
    }
}

/// The number a listing field denotes: its decimal value, or zero when
/// the field is empty, holds a non-digit, or exceeds `u64::MAX`.
pub open spec fn parse_u64_spec(s: Seq<char>) -> u64 {
    match parse_u64_opt_spec(s) {
        Option::Some(v) => v,
        Option::None => 0,
    }
}

/// Like [`parse_u64_spec`], for a field read as `u32`.
pub open spec fn parse_u32_spec(s: Seq<char>) -> u32 {
    match parse_u64_opt_spec(s) {
        Option::Some(v) => if v <= u32::MAX { v as u32 } else { 0 },
        Option::None => 0,
    }
}

/// Parses a decimal field, yielding zero for anything unparseable.
pub fn parse_u64_or_zero(s: &str) -> (r: u64)
    ensures
        r == parse_u64_spec(s@),
{
    match parse_u64_checked(s) {
        Some(v) => v,
        None => 0,
    }
}

/// Parses a decimal field into `u32`, yielding zero for anything
/// unparseable or out of range.
pub fn parse_u32_or_zero(s: &str) -> (r: u32)
    ensures
        r == parse_u32_spec(s@),
{
    match parse_u64_checked(s) {
        Some(v) => {
            if v <= u32::MAX as u64 {
                v as u32
            } else {
                0
            }
        },
        None => 0,
    }
}

/// Parses a decimal field exactly: `None` when it is empty, holds a
/// non-digit, or overflows.
pub fn parse_u64_checked(s: &str) -> (r: Option<u64>)
    ensures
        r == parse_u64_opt_spec(s@),
{
    let n = s.unicode_len();
    if n == 0 {
        return None;
    }
    let mut ok = true;
    let mut acc: u64 = 0;
    let mut i: usize = 0;
    proof {
        assert(s@.take(0) =~= Seq::<char>::empty());
    }
    while i < n
        invariant
            n == s@.len(),
            0 <= i <= n,
            s@.take(i as int).fold_left(Option::Some(0u64), |acc: Option<u64>, c2: char| parse_u64_step(acc, c2))
                == (if ok { Option::Some(acc) } else { Option::<u64>::None }),
        decreases n - i,
    {
        let c = s.get_char(i);
        proof {
            assert(s@.take(i as int + 1).drop_last() =~= s@.take(i as int));
            assert(s@.take(i as int + 1).last() == s@[i as int]);
        }
        let ghost pre_state: Option<u64> = if ok { Option::Some(acc) } else { Option::None };
        if ok {
            let v = c as u32;
            if v < 48 || v > 57 {
                ok = false;
            } else {
                let d = (v - 48) as u64;
                proof {
                    vstd::arithmetic::div_mod::lemma_fundamental_div_mod(
                        (u64::MAX - d) as int, 10);
                }
                if acc <= (u64::MAX - d) / 10 {
                    acc = acc * 10 + d;
                } else {
                    ok = false;
                }
            }
        }
        proof {
            assert(s@.take(i as int + 1).fold_left(Option::Some(0u64), |acc: Option<u64>, c2: char| parse_u64_step(acc, c2))
                == (|acc: Option<u64>, c2: char| parse_u64_step(acc, c2))(s@.take(i as int + 1).drop_last().fold_left(Option::Some(0u64), |acc: Option<u64>, c2: char| parse_u64_step(acc, c2)), s@.take(i as int + 1).last()));
            assert(s@.take(i as int + 1).drop_last().fold_left(Option::Some(0u64), |acc: Option<u64>, c2: char| parse_u64_step(acc, c2))
                == s@.take(i as int).fold_left(Option::Some(0u64), |acc: Option<u64>, c2: char| parse_u64_step(acc, c2)));
            assert((|acc: Option<u64>, c2: char| parse_u64_step(acc, c2))(pre_state, c) == parse_u64_step(pre_state, c));
            assert(parse_u64_step(pre_state, c)
                == (if ok { Option::Some(acc) } else { Option::<u64>::None }));
        }
        i += 1;
    }
    proof {
        assert(s@.take(n as int) =~= s@);
    }
    if ok {
        Some(acc)
    } else {
        None
    }
}

/// The first index at or after `i` holding `c`, or the length.
pub open spec fn find_char(s: Seq<char>, c: char, i: int) -> int
    decreases s.len() - i,
{
    if !(0 <= i < s.len()) {
        s.len() as int
    } else if s[i] == c {
        i
    } else {
        find_char(s, c, i + 1)
    }
}

pub proof fn lemma_find_char_bounds(s: Seq<char>, c: char, i: int)
    requires
        0 <= i <= s.len(),
    ensures
        i <= find_char(s, c, i) <= s.len(),
        find_char(s, c, i) < s.len() ==> s[find_char(s, c, i)] == c,
    decreases s.len() - i,
{
    if i < s.len() && s[i] != c {
        lemma_find_char_bounds(s, c, i + 1);
    }
}

/// The fields of the string split at every occurrence of `c`, empty
/// fields kept: splitting `a,,b` at a comma gives three fields.
pub open spec fn split_char_from(s: Seq<char>, c: char, i: int) -> Seq<Seq<char>>
    decreases s.len() - i
        when 0 <= i <= s.len()
    via split_char_from_decreases
{
    let j = find_char(s, c, i);
    if j >= s.len() {
        seq![s.subrange(i, j)]
    } else {
        seq![s.subrange(i, j)] + split_char_from(s, c, j + 1)
    }
}

#[via_fn]
proof fn split_char_from_decreases(s: Seq<char>, c: char, i: int) {
    lemma_find_char_bounds(s, c, i);
}

/// The fields of the whole string.
pub open spec fn split_char_spec(s: Seq<char>, c: char) -> Seq<Seq<char>> {
    split_char_from(s, c, 0)
}

/// Splits the string at every occurrence of `c`, keeping empty fields.
pub fn split_on_char(s: &str, c: char) -> (r: Vec<String>)
    ensures
        r@.map_values(|t: String| t@) == split_char_spec(s@, c),
{
    let n = s.unicode_len();
    let mut r: Vec<String> = Vec::new();
    let mut i: usize = 0;
    proof {
        assert(r@.map_values(|t: String| t@) + split_char_from(s@, c, 0)
            =~= split_char_from(s@, c, 0));
    }
    loop
        invariant_except_break
            n == s@.len(),
            0 <= i <= n,
            r@.map_values(|t: String| t@) + split_char_from(s@, c, i as int)
                == split_char_spec(s@, c),
        ensures
            r@.map_values(|t: String| t@) == split_char_spec(s@, c),
        decreases n - i,
    {
        let start = i;
        let ghost ipre = i as int;
        while i < n && s.get_char(i) != c
            invariant
                n == s@.len(),
                ipre <= i <= n,
                start == ipre,
                find_char(s@, c, ipre) == find_char(s@, c, i as int),
            decreases n - i,
        {
            i += 1;
        }
        proof {
            assert(find_char(s@, c, ipre) == i as int);
        }
        let field = s.substring_char(start, i).to_owned();
        let ghost rpre = r@.map_values(|t: String| t@);
        r.push(field);
        if i == n {
            proof {
                assert(split_char_from(s@, c, ipre) =~= seq![s@.subrange(ipre, i as int)]);
                assert(r@.map_values(|t: String| t@)
                    =~= rpre.push(s@.subrange(ipre, i as int)));
                assert(r@.map_values(|t: String| t@) =~= split_char_spec(s@, c));
            }
            break;
        }
        proof {
            assert(split_char_from(s@, c, ipre) =~= seq![s@.subrange(ipre, i as int)]
                + split_char_from(s@, c, i + 1));
            assert(r@.map_values(|t: String| t@) =~= rpre.push(s@.subrange(ipre, i as int)));
            assert(r@.map_values(|t: String| t@) + split_char_from(s@, c, i + 1)
                =~= split_char_spec(s@, c));
        }
        i += 1;
    }
    r
}

/// The index just past the last character of `s` that is not `c`.
pub open spec fn rskip_char(s: Seq<char>, c: char, i: int) -> int
    decreases i,
{
    if i <= 0 || i > s.len() {
        0
    } else if s[i - 1] != c {
        i
    } else {
        rskip_char(s, c, i - 1)
    }
}

/// The string without its trailing run of `c`.
pub open spec fn strip_trailing_spec(s: Seq<char>, c: char) -> Seq<char> {
    s.subrange(0, rskip_char(s, c, s.len() as int))
}

proof fn lemma_rskip_char_bounds(s: Seq<char>, c: char, i: int)
    requires
        0 <= i <= s.len(),
    ensures
        0 <= rskip_char(s, c, i) <= i,
    decreases i,
{
    if 0 < i && s[i - 1] == c {
        lemma_rskip_char_bounds(s, c, i - 1);
    }
}

/// Removes the trailing run of `c`, if any.
pub fn strip_trailing(s: &str, c: char) -> (r: &str)
    ensures
        r@ == strip_trailing_spec(s@, c),
{
    let n = s.unicode_len();
    let mut b: usize = n;
    while b > 0 && s.get_char(b - 1) == c
        invariant
            n == s@.len(),
            0 <= b <= n,
            rskip_char(s@, c, n as int) == rskip_char(s@, c, b as int),
        decreases b,
    {
        b -= 1;
    }
    proof {
        assert(rskip_char(s@, c, n as int) == b as int);
        lemma_rskip_char_bounds(s@, c, n as int);
    }
    s.substring_char(0, b)
}

/// Compares two string slices character by character.
pub fn str_eq(a: &str, b: &str) -> (r: bool)
    ensures
        r == (a@ == b@),
{
    let n = a.unicode_len();
    let m = b.unicode_len();
    if n != m {
        return false;
    }
    let mut i: usize = 0;
    while i < n
        invariant
            n == a@.len(),
            n == b@.len(),
            i <= n,
            forall|j: int| 0 <= j < i ==> a@[j] == b@[j],
        decreases n - i,
    {
        if a.get_char(i) != b.get_char(i) {
            return false;
        }
        i += 1;
    }
    proof {
        assert(a@ =~= b@);
    }
    true
}

/// Fields joined by single spaces.
pub open spec fn join_spaces(ts: Seq<Seq<char>>) -> Seq<char>
    decreases ts.len(),
{
    if ts.len() == 0 {
        Seq::empty()
    } else if ts.len() == 1 {
        ts[0]
    } else {
        ts[0] + " "@ + join_spaces(ts.drop_first())
    }
}

pub proof fn lemma_join_push(ts: Seq<Seq<char>>, x: Seq<char>)
    ensures
        join_spaces(ts.push(x)) == (if ts.len() == 0 {
            x
        } else {
            join_spaces(ts) + " "@ + x
        }),
    decreases ts.len(),
{
    let p = ts.push(x);
    if ts.len() == 0 {
        assert(p.len() == 1);
        assert(join_spaces(p) == p[0]);
        assert(p[0] == x);
    } else {
        lemma_join_push(ts.drop_first(), x);
        assert(p.drop_first() =~= ts.drop_first().push(x));
        if ts.len() == 1 {
            assert(join_spaces(p) == p[0] + " "@ + join_spaces(p.drop_first()));
            assert(join_spaces(p.drop_first()) == x);
            assert(join_spaces(ts) == ts[0]);
        } else {
            assert(join_spaces(p) == p[0] + " "@ + join_spaces(p.drop_first()));
            assert(join_spaces(ts) + " "@ + x =~= ts[0] + " "@ + (join_spaces(ts.drop_first()) + " "@ + x));
        }
    }
}


/// Joins the fields `from..to` with single spaces.
pub fn join_tokens(toks: &Vec<String>, from: usize, to: usize) -> (r: String)
    requires
        from <= to <= toks@.len(),
    ensures
        r@ == join_spaces(toks@.map_values(|t: String| t@).subrange(from as int, to as int)),
{
    let ghost fields = toks@.map_values(|t: String| t@).subrange(from as int, to as int);
    let mut r = String::new();
    let mut j: usize = from;
    proof {
        assert(fields.take(0) =~= Seq::<Seq<char>>::empty());
    }
    while j < to
        invariant
            from <= j <= to <= toks@.len(),
            fields == toks@.map_values(|t: String| t@).subrange(from as int, to as int),
            r@ == join_spaces(fields.take(j - from)),
        decreases to - j,
    {
        proof {
            reveal_strlit(" ");
            assert(toks@.map_values(|t: String| t@)[j as int] == toks@[j as int]@);
            assert(fields[j - from] == toks@[j as int]@);
        }
        if j > from {
            r.append(" ");
        }
        r.append(toks[j].as_str());
        proof {
            lemma_join_push(fields.take(j - from), fields[j - from]);
            assert(fields.take(j - from).push(fields[j - from]) =~= fields.take(j - from + 1));
            assert(r@ == join_spaces(fields.take(j - from + 1)));
        }
        j += 1;
    }
    proof {
        assert(fields.take(to - from) =~= fields);
    }
    r
}

} // verus!
