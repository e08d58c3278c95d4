//! Text helpers shared by the driver and the tree.

use regex::Regex;
use std::collections::HashMap;
use vstd::prelude::*;
use vstd::string::StrSliceExecFns;

verus! {

/// The characters of `s`, in order.
pub fn to_chars(s: &str) -> (v: Vec<char>)
    ensures
        v@ == s@,
{
    let mut v: Vec<char> = Vec::new();
    for c in it: s.chars()
        invariant
            it.seq() == s@,
            v@ == it.seq().take(it.index() as int),
    {
        v.push(c);
    }
    v
}

/// The code point of `c`.
pub fn code_of(c: char) -> (r: u64)
    ensures
        r as int == c as int,
        r <= 0x10FFFF,
{
    (c as u32) as u64
}

/// The code point at position `i` of `s`, and 0 behind its end.
pub open spec fn code_at(s: Seq<char>, i: int) -> int {
    if 0 <= i < s.len() {
        s[i] as int
    } else {
        0
    }
}

/// How far apart two code points are.
pub open spec fn gap(x: int, y: int) -> int {
    if x <= y {
        y - x
    } else {
        x - y
    }
}

/// The sum of the gaps at the first `n` positions.
pub open spec fn distance_upto(a: Seq<char>, b: Seq<char>, n: nat) -> int
    decreases n,
{
    if n == 0 {
        0
    } else {
        distance_upto(a, b, (n - 1) as nat) + gap(code_at(a, n - 1), code_at(b, n - 1))
    }
}

/// The distance of two locality descriptors: position by position, up to the
/// longer one's length, the gap between the code points, the shorter one
/// padded with zeros.
pub open spec fn str_distance(a: Seq<char>, b: Seq<char>) -> int {
    distance_upto(
        a,
        b,
        if a.len() >= b.len() {
            a.len()
        } else {
            b.len()
        },
    )
}

/// The distance as a `u64`: the sum itself wherever it fits.
pub open spec fn str_distance_u64(a: Seq<char>, b: Seq<char>) -> u64 {
    if str_distance(a, b) <= u64::MAX {
        str_distance(a, b) as u64
    } else {
        u64::MAX
    }
}

/// A string is at distance 0 from itself.
pub proof fn lemma_distance_self(a: Seq<char>)
    ensures
        str_distance(a, a) == 0,
        str_distance_u64(a, a) == 0,
{
    lemma_distance_self_upto(a, a.len());
}

proof fn lemma_distance_self_upto(a: Seq<char>, n: nat)
    ensures
        distance_upto(a, a, n) == 0,
    decreases n,
{
    if n > 0 {
        lemma_distance_self_upto(a, (n - 1) as nat);
    }
}

/// The distance does not depend on the order of its arguments.
pub proof fn lemma_distance_symmetric(a: Seq<char>, b: Seq<char>)
    ensures
        str_distance(a, b) == str_distance(b, a),
        str_distance_u64(a, b) == str_distance_u64(b, a),
{
    let n = if a.len() >= b.len() {
        a.len()
    } else {
        b.len()
    };
    lemma_distance_symmetric_upto(a, b, n);
}

proof fn lemma_distance_symmetric_upto(a: Seq<char>, b: Seq<char>, n: nat)
    ensures
        distance_upto(a, b, n) == distance_upto(b, a, n),
    decreases n,
{
    if n > 0 {
        lemma_distance_symmetric_upto(a, b, (n - 1) as nat);
    }
}

/// The distance between two locality descriptors, saturating at `u64::MAX`.
pub fn strdistance(a: &String, b: &String) -> (r: u64)
    ensures
        r == str_distance_u64(a@, b@),
{
    let va = to_chars(a.as_str());
    let vb = to_chars(b.as_str());
    let len: usize = if va.len() >= vb.len() {
        va.len()
    } else {
        vb.len()
    };
    let mut ret: u64 = 0;
    let mut i: usize = 0;
    while i < len
        invariant
            i <= len,
            va@ == a@,
            vb@ == b@,
            len == if a@.len() >= b@.len() {
                a@.len()
            } else {
                b@.len()
            },
            0 <= distance_upto(a@, b@, i as nat),
            ret as int == if distance_upto(a@, b@, i as nat) <= u64::MAX {
                distance_upto(a@, b@, i as nat)
            } else {
                u64::MAX as int
            },
        decreases len - i,
    {
        let ca: u64 = if i < va.len() {
            code_of(va[i])
        } else {
            0
        };
        let cb: u64 = if i < vb.len() {
            code_of(vb[i])
        } else {
            0
        };
        let d: u64 = if ca <= cb {
            cb - ca
        } else {
            ca - cb
        };
        assert(d as int == gap(code_at(a@, i as int), code_at(b@, i as int)));
        ret = ret.saturating_add(d);
        i = i + 1;
    }
    ret
}


pub assume_specification[ String::push ](s: &mut String, c: char)
    ensures
        final(s)@ == old(s)@.push(c),
;

/// The string made of the characters of `v`.
pub fn from_chars(v: &Vec<char>) -> (r: String)
    ensures
        r@ == v@,
{
    let mut r = String::new();
    let mut i: usize = 0;
    while i < v.len()
        invariant
            i <= v.len(),
            r@ == v@.take(i as int),
        decreases v.len() - i,
    {
        r.push(v[i]);
        i = i + 1;
    }
    assert(v@.take(v.len() as int) =~= v@);
    r
}

/// The characters of `v` from position `from` up to, not including, `to`.
pub fn sub_string(v: &Vec<char>, from: usize, to: usize) -> (r: String)
    requires
        from <= to <= v.len(),
    ensures
        r@ == v@.subrange(from as int, to as int),
{
    let mut r = String::new();
    let mut i: usize = from;
    while i < to
        invariant
            from <= i <= to,
            to <= v.len(),
            r@ == v@.subrange(from as int, i as int),
        decreases to - i,
    {
        r.push(v[i]);
        assert(v@.subrange(from as int, i as int).push(v@[i as int]) =~= v@.subrange(
            from as int,
            i + 1,
        ));
        i = i + 1;
    }
    r
}

/// Whether `text` begins with `prefix`.
pub fn has_prefix(text: &Vec<char>, prefix: &Vec<char>) -> (r: bool)
    ensures
        r == prefix@.is_prefix_of(text@),
{
    if prefix.len() > text.len() {
        return false;
    }
    let mut i: usize = 0;
    while i < prefix.len()
        invariant
            i <= prefix.len() <= text.len(),
            forall|j: int| 0 <= j < i ==> text@[j] == prefix@[j],
        decreases prefix.len() - i,
    {
        if text[i] != prefix[i] {
            return false;
        }
        i = i + 1;
    }
    assert(text@.subrange(0, prefix@.len() as int) =~= prefix@);
    true
}

/// What is left of `text` behind `prefix`, where `text` begins with it.
pub open spec fn spec_strip_prefix(text: Seq<char>, prefix: Seq<char>) -> Option<Seq<char>> {
    if prefix.is_prefix_of(text) {
        Some(text.skip(prefix.len() as int))
    } else {
        None
    }
}

/// What is left of `text` behind `prefix`, or `None` where `text` does not
/// begin with it.
pub fn strip_prefix(text: &str, prefix: &str) -> (r: Option<String>)
    ensures
        r.deep_view() == spec_strip_prefix(text@, prefix@),
{
    let t = to_chars(text);
    let p = to_chars(prefix);
    if has_prefix(&t, &p) {
        let rest = sub_string(&t, p.len(), t.len());
        Some(rest)
    } else {
        None
    }
}

/// Whether `c` is one of the ten decimal digits.
pub open spec fn is_digit(c: char) -> bool {
    '0' <= c <= '9'
}

/// The number that the digits of `s` write in base ten, or `None` where `s`
/// is empty or holds anything but digits.
pub open spec fn digits_value(s: Seq<char>) -> Option<nat>
    decreases s.len(),
{
    if s.len() == 0 {
        None
    } else if !is_digit(s.last()) {
        None
    } else if s.len() == 1 {
        Some((s.last() as int - '0' as int) as nat)
    } else {
        match digits_value(s.drop_last()) {
            Some(v) => Some((v * 10 + (s.last() as int - '0' as int)) as nat),
            None => None,
        }
    }
}

/// The reading of an unsigned decimal of at most `limit`: an optional `+`,
/// then digits and nothing else.
pub open spec fn spec_parse_unsigned(s: Seq<char>, limit: nat) -> Option<nat> {
    let body = if s.len() > 0 && s[0] == '+' {
        s.skip(1)
    } else {
        s
    };
    match digits_value(body) {
        Some(v) => if v <= limit {
            Some(v)
        } else {
            None
        },
        None => None,
    }
}

/// The reading of a signed decimal between `-limit - 1` and `limit`: an
/// optional `+` or `-`, then digits and nothing else.
pub open spec fn spec_parse_signed(s: Seq<char>, limit: nat) -> Option<int> {
    if s.len() > 0 && s[0] == '-' {
        match digits_value(s.skip(1)) {
            Some(v) => if v <= limit + 1 {
                Some(-(v as int))
            } else {
                None
            },
            None => None,
        }
    } else {
        match spec_parse_unsigned(s, limit) {
            Some(v) => Some(v as int),
            None => None,
        }
    }
}

/// Reads the characters of `v` from `from` on as digits, up to `limit`.
fn read_digits(v: &Vec<char>, from: usize, limit: u64) -> (r: Option<u64>)
    requires
        from <= v.len(),
    ensures
        r == match digits_value(v@.skip(from as int)) {
            Some(n) => if n <= limit {
                Some(n as u64)
            } else {
                None
            },
            None => None,
        },
{
    let ghost body = v@.skip(from as int);
    if from == v.len() {
        return None;
    }
    let mut acc: u64 = 0;
    let mut over: bool = false;
    let mut i: usize = from;
    while i < v.len()
        invariant
            from <= i <= v.len(),
            body == v@.skip(from as int),
            acc <= limit,
            i > from ==> digits_value(body.take(i - from)) is Some,
            i > from && !over ==> digits_value(body.take(i - from)) == Some(acc as nat),
            i > from && over ==> digits_value(body.take(i - from))->0 > limit,
            i == from ==> acc == 0 && !over,
        decreases v.len() - i,
    {
        let c = v[i];
        let ghost pre = body.take(i - from);
        let ghost cur = body.take(i + 1 - from);
        assert(cur.drop_last() =~= pre);
        assert(cur.last() == c);
        if !(c >= '0' && c <= '9') {
            proof {
                lemma_digits_prefix(body, (i + 1 - from) as nat);
            }
            return None;
        }
        let d: u64 = code_of(c) - code_of('0');
        if !over {
            let next: u128 = (acc as u128) * 10 + (d as u128);
            if next > limit as u128 {
                over = true;
            } else {
                acc = next as u64;
            }
        } else {
            assert(digits_value(cur)->0 >= digits_value(pre)->0) by (nonlinear_arith)
                requires
                    digits_value(cur)->0 == digits_value(pre)->0 * 10 + (c as int - '0' as int),
                    c as int - '0' as int >= 0,
            ;
        }
        i = i + 1;
    }
    assert(body.take(v.len() - from) =~= body);
    if over {
        None
    } else {
        Some(acc)
    }
}

/// Where a prefix of `s` holds anything but digits, so does `s`.
proof fn lemma_digits_prefix(s: Seq<char>, n: nat)
    requires
        0 < n <= s.len(),
        digits_value(s.take(n as int)) is None,
    ensures
        digits_value(s) is None,
    decreases s.len(),
{
    if n == s.len() {
        assert(s.take(n as int) =~= s);
    } else {
        assert(s.drop_last().take(n as int) =~= s.take(n as int));
        lemma_digits_prefix(s.drop_last(), n);
    }
}

/// Reads a decimal `u32`.
pub fn parse_u32(s: &str) -> (r: Option<u32>)
    ensures
        r == match spec_parse_unsigned(s@, u32::MAX as nat) {
            Some(n) => Some(n as u32),
            None => None,
        },
{
    let v = to_chars(s);
    let from: usize = if v.len() > 0 && v[0] == '+' {
        1
    } else {
        0
    };
    assert(v@.skip(0) =~= v@);
    match read_digits(&v, from, 0xffff_ffff) {
        Some(n) => Some(n as u32),
        None => None,
    }
}

/// Reads a decimal `u64`.
pub fn parse_u64(s: &str) -> (r: Option<u64>)
    ensures
        r == match spec_parse_unsigned(s@, u64::MAX as nat) {
            Some(n) => Some(n as u64),
            None => None,
        },
{
    let v = to_chars(s);
    let from: usize = if v.len() > 0 && v[0] == '+' {
        1
    } else {
        0
    };
    assert(v@.skip(0) =~= v@);
    read_digits(&v, from, u64::MAX)
}

/// Reads a decimal `i32`.
pub fn parse_i32(s: &str) -> (r: Option<i32>)
    ensures
        r == match spec_parse_signed(s@, i32::MAX as nat) {
            Some(n) => Some(n as i32),
            None => None,
        },
{
    let v = to_chars(s);
    if v.len() > 0 && v[0] == '-' {
        match read_digits(&v, 1, 0x8000_0000) {
            Some(n) => {
                if n == 0x8000_0000 {
                    Some(i32::MIN)
                } else {
                    Some(-(n as i32))
                }
            },
            None => None,
        }
    } else {
        let from: usize = if v.len() > 0 && v[0] == '+' {
            1
        } else {
            0
        };
        assert(v@.skip(0) =~= v@);
        match read_digits(&v, from, 0x7fff_ffff) {
            Some(n) => Some(n as i32),
            None => None,
        }
    }
}


/// The digits that write `n` in base ten, without leading zeros.
pub open spec fn decimal(n: nat) -> Seq<char>
    decreases n,
{
    if n < 10 {
        seq![(('0' as int) + n) as char]
    } else {
        decimal(n / 10).push((('0' as int) + n % 10) as char)
    }
}

/// The digit character of `d`.
fn digit_char(d: u8) -> (c: char)
    requires
        d < 10,
    ensures
        c == (('0' as int) + d) as char,
{
    if d == 0 {
        '0'
    } else if d == 1 {
        '1'
    } else if d == 2 {
        '2'
    } else if d == 3 {
        '3'
    } else if d == 4 {
        '4'
    } else if d == 5 {
        '5'
    } else if d == 6 {
        '6'
    } else if d == 7 {
        '7'
    } else if d == 8 {
        '8'
    } else {
        '9'
    }
}

/// Appends the decimal digits of `n` to `out`.
pub fn push_decimal(out: &mut String, n: u64)
    ensures
        final(out)@ == old(out)@ + decimal(n as nat),
    decreases n,
{
    if n < 10 {
        out.push(digit_char(n as u8));
        assert(old(out)@.push(decimal(n as nat)[0]) =~= old(out)@ + decimal(n as nat));
    } else {
        push_decimal(out, n / 10);
        out.push(digit_char((n % 10) as u8));
        assert((old(out)@ + decimal((n / 10) as nat)).push(decimal(n as nat).last()) =~= old(out)@
            + decimal(n as nat));
    }
}

/// What `Regex::captures_iter` finds of `pattern` in `text`: for each match,
/// in order, its groups from group 0 on, each the text it matched where it
/// took part. `None` where `Regex::new` refuses `pattern`, as no regular
/// expression or as one that is too large.
pub uninterp spec fn regex_captures(pattern: Seq<char>, text: Seq<char>) -> Option<
    Seq<Seq<Option<Seq<char>>>>,
>;

/// What `Regex::replace` makes of `text`: the first match of `pattern`
/// replaced by the expansion of `rep`. `None` where `Regex::new` refuses
/// `pattern`.
pub uninterp spec fn regex_replace_first(
    pattern: Seq<char>,
    text: Seq<char>,
    rep: Seq<char>,
) -> Option<Seq<char>>;

/// What `Regex::replace_all` makes of `text`: every match of `pattern`
/// replaced by the expansion of `rep`. `None` where `Regex::new` refuses
/// `pattern`.
pub uninterp spec fn regex_replace_every(
    pattern: Seq<char>,
    text: Seq<char>,
    rep: Seq<char>,
) -> Option<Seq<char>>;

/// Compiles `pattern` with `Regex::new` and collects what
/// `Regex::captures_iter` yields on `text`. The contract only gives the
/// result its name: matching depends on the two texts alone.
#[verifier::external_body]
pub(crate) fn captures_all(pattern: &str, text: &str) -> (r: Option<Vec<Vec<Option<String>>>>)
    ensures
        r.deep_view() == regex_captures(pattern@, text@),
{
    match Regex::new(pattern) {
        Ok(re) => Some(
            re.captures_iter(text).map(
                |c| c.iter().map(|g| g.map(|m| m.as_str().to_string())).collect(),
            ).collect(),
        ),
        Err(_) => None,
    }
}

/// Compiles `pattern` with `Regex::new` and calls `Regex::replace` on
/// `text`. The contract only gives the result its name.
#[verifier::external_body]
pub(crate) fn replace_first(pattern: &str, text: &str, rep: &str) -> (r: Option<String>)
    ensures
        r.deep_view() == regex_replace_first(pattern@, text@, rep@),
{
    match Regex::new(pattern) {
        Ok(re) => Some(re.replace(text, rep).to_string()),
        Err(_) => None,
    }
}

/// Compiles `pattern` with `Regex::new` and calls `Regex::replace_all` on
/// `text`. The contract only gives the result its name.
#[verifier::external_body]
pub(crate) fn replace_every(pattern: &str, text: &str, rep: &str) -> (r: Option<String>)
    ensures
        r.deep_view() == regex_replace_every(pattern@, text@, rep@),
{
    match Regex::new(pattern) {
        Ok(re) => Some(re.replace_all(text, rep).to_string()),
        Err(_) => None,
    }
}


/// One match of a pattern: its groups, group 0 first.
pub type MatchView = Seq<Option<Seq<char>>>;

/// Group `i` of a match, where the match has it and it took part.
pub open spec fn group(m: MatchView, i: int) -> Option<Seq<char>> {
    if 0 <= i < m.len() {
        m[i]
    } else {
        None
    }
}

/// Group `i` of a match, where the match has it and it took part.
pub fn group_text(m: &Vec<Option<String>>, i: usize) -> (r: Option<String>)
    ensures
        r.deep_view() == group(m.deep_view(), i as int),
{
    if i < m.len() {
        clone_text(&m[i])
    } else {
        None
    }
}

fn clone_text(o: &Option<String>) -> (r: Option<String>)
    ensures
        r == *o,
{
    match o {
        Some(s) => Some(s.clone()),
        None => None,
    }
}

/// Group `i` of every match that has it, in the order of the matches.
pub open spec fn pick_group(caps: Seq<MatchView>, i: int) -> Seq<Seq<char>>
    decreases caps.len(),
{
    if caps.len() == 0 {
        Seq::empty()
    } else {
        let rest = pick_group(caps.drop_last(), i);
        match group(caps.last(), i) {
            Some(g) => rest.push(g),
            None => rest,
        }
    }
}

/// Groups 1 and 2 of every match that has both, in the order of the matches.
pub open spec fn pick_pairs(caps: Seq<MatchView>) -> Seq<(Seq<char>, Seq<char>)>
    decreases caps.len(),
{
    if caps.len() == 0 {
        Seq::empty()
    } else {
        let rest = pick_pairs(caps.drop_last());
        match (group(caps.last(), 1), group(caps.last(), 2)) {
            (Some(k), Some(v)) => rest.push((k, v)),
            _ => rest,
        }
    }
}

/// Group `i` of every match that has it.
pub fn groups_from_captures(caps: &Vec<Vec<Option<String>>>, i: usize) -> (r: Vec<String>)
    ensures
        r.deep_view() == pick_group(caps.deep_view(), i as int),
{
    let mut out: Vec<String> = Vec::new();
    let mut n: usize = 0;
    assert(out.deep_view() =~= Seq::empty());
    assert(caps.deep_view().take(0) =~= Seq::empty());
    while n < caps.len()
        invariant
            n <= caps.len(),
            out.deep_view() == pick_group(caps.deep_view().take(n as int), i as int),
        decreases caps.len() - n,
    {
        let ghost before = out.deep_view();
        let ghost cur = caps.deep_view().take(n + 1);
        assert(cur.drop_last() =~= caps.deep_view().take(n as int));
        assert(cur.last() == caps[n as int].deep_view());
        match group_text(&caps[n], i) {
            Some(g) => {
                out.push(g);
                assert(out.deep_view() =~= before.push(g@));
            },
            None => {},
        }
        n = n + 1;
    }
    assert(caps.deep_view().take(caps.len() as int) =~= caps.deep_view());
    out
}

/// The `key="value"` pairs of a list of matches.
pub fn equal_list_from_captures(caps: &Vec<Vec<Option<String>>>) -> (r: Vec<(String, String)>)
    ensures
        r.deep_view() == pick_pairs(caps.deep_view()),
{
    let mut out: Vec<(String, String)> = Vec::new();
    let mut n: usize = 0;
    assert(out.deep_view() =~= Seq::empty());
    assert(caps.deep_view().take(0) =~= Seq::empty());
    while n < caps.len()
        invariant
            n <= caps.len(),
            out.deep_view() == pick_pairs(caps.deep_view().take(n as int)),
        decreases caps.len() - n,
    {
        let ghost before = out.deep_view();
        let ghost cur = caps.deep_view().take(n + 1);
        assert(cur.drop_last() =~= caps.deep_view().take(n as int));
        assert(cur.last() == caps[n as int].deep_view());
        let k = group_text(&caps[n], 1);
        let v = group_text(&caps[n], 2);
        match (k, v) {
            (Some(k), Some(v)) => {
                let ghost pair = (k@, v@);
                out.push((k, v));
                assert(out.deep_view() =~= before.push(pair));
            },
            _ => {},
        }
        n = n + 1;
    }
    assert(caps.deep_view().take(caps.len() as int) =~= caps.deep_view());
    out
}

/// The value of the last pair whose key is `key`.
pub open spec fn lookup_last(entries: Seq<(Seq<char>, Seq<char>)>, key: Seq<char>) -> Option<
    Seq<char>,
>
    decreases entries.len(),
{
    if entries.len() == 0 {
        None
    } else if entries.last().0 == key {
        Some(entries.last().1)
    } else {
        lookup_last(entries.drop_last(), key)
    }
}

/// The value that a list of pairs gives `key`: where several pairs have the
/// key, the last one counts.
pub fn entry_value(entries: &Vec<(String, String)>, key: &str) -> (r: Option<String>)
    ensures
        r.deep_view() == lookup_last(entries.deep_view(), key@),
{
    let mut n: usize = entries.len();
    assert(entries.deep_view().take(n as int) =~= entries.deep_view());
    while n > 0
        invariant
            n <= entries.len(),
            lookup_last(entries.deep_view(), key@) == lookup_last(
                entries.deep_view().take(n as int),
                key@,
            ),
        decreases n,
    {
        let ghost cur = entries.deep_view().take(n as int);
        assert(cur.last() == entries[n - 1].deep_view());
        assert(cur.drop_last() =~= entries.deep_view().take(n - 1));
        if str_eq(entries[n - 1].0.as_str(), key) {
            return Some(entries[n - 1].1.clone());
        }
        n = n - 1;
    }
    None
}

/// Whether two strings hold the same characters.
pub fn str_eq(a: &str, b: &str) -> (r: bool)
    ensures
        r == (a@ == b@),
{
    let va = to_chars(a);
    let vb = to_chars(b);
    if va.len() != vb.len() {
        return false;
    }
    let mut i: usize = 0;
    while i < va.len()
        invariant
            i <= va.len(),
            va.len() == vb.len(),
            va@ == a@,
            vb@ == b@,
            forall|j: int| 0 <= j < i ==> va@[j] == vb@[j],
        decreases va.len() - i,
    {
        if va[i] != vb[i] {
            return false;
        }
        i = i + 1;
    }
    assert(va@ =~= vb@);
    true
}

/// The pattern of one `key="value"` pair in a debugger record.
pub open spec fn equal_list_pattern() -> Seq<char> {
    "([a-z\\-]+)=\"([^\"]+)\""@
}

/// The `key="value"` pairs of a debugger record, in the order in which they
/// stand in it.
pub open spec fn spec_equal_list(list: Seq<char>) -> Seq<(Seq<char>, Seq<char>)> {
    match regex_captures(equal_list_pattern(), list) {
        Some(caps) => pick_pairs(caps),
        None => Seq::empty(),
    }
}

/// Reads the `key="value"` pairs of a debugger record. A key is made of
/// lower-case letters and hyphens; a value is what stands between the
/// quotes, and is not empty.
pub fn parse_gdb_equal_list(list: &str) -> (r: Vec<(String, String)>)
    ensures
        r.deep_view() == spec_equal_list(list@),
{
    match captures_all("([a-z\\-]+)=\"([^\"]+)\"", list) {
        Some(caps) => equal_list_from_captures(&caps),
        None => {
            let out: Vec<(String, String)> = Vec::new();
            assert(out.deep_view() =~= Seq::empty());
            out
        },
    }
}

/// The pattern of one group in braces that holds no brace.
pub open spec fn gdb_group_pattern() -> Seq<char> {
    "\\{([^{}]*)\\}"@
}

/// The innermost groups in braces of a debugger record, without the braces.
pub open spec fn spec_gdb_groups(list: Seq<char>) -> Seq<Seq<char>> {
    match regex_captures(gdb_group_pattern(), list) {
        Some(caps) => pick_group(caps, 1),
        None => Seq::empty(),
    }
}

/// Reads the innermost groups in braces of a debugger record.
pub fn extract_gdb_group(list: &str) -> (r: Vec<String>)
    ensures
        r.deep_view() == spec_gdb_groups(list@),
{
    match captures_all("\\{([^{}]*)\\}", list) {
        Some(caps) => groups_from_captures(&caps, 1),
        None => {
            let out: Vec<String> = Vec::new();
            assert(out.deep_view() =~= Seq::empty());
            out
        },
    }
}

/// The pattern of a response line: a token of digits, the marker, the
/// payload, the end of the line.
pub open spec fn token_pattern(marker: Seq<char>) -> Seq<char> {
    "^([0-9]+)"@ + marker + "(.*)\n"@
}

/// The token and the payload of the first match, where it has both and the
/// token is a `u64`.
pub open spec fn token_response_of(caps: Seq<MatchView>) -> Option<(u64, Seq<char>)> {
    if caps.len() == 0 {
        None
    } else {
        match (group(caps[0], 1), group(caps[0], 2)) {
            (Some(id), Some(payload)) => match spec_parse_unsigned(id, u64::MAX as nat) {
                Some(n) => Some((n as u64, payload)),
                None => None,
            },
            _ => None,
        }
    }
}

/// The token and the payload that a list of matches gives.
pub fn token_response_from_captures(caps: &Vec<Vec<Option<String>>>) -> (r: Option<
    (u64, String),
>)
    ensures
        r.deep_view() == token_response_of(caps.deep_view()),
{
    if caps.len() == 0 {
        return None;
    }
    assert(caps.deep_view()[0] == caps[0].deep_view());
    let id = group_text(&caps[0], 1);
    let payload = group_text(&caps[0], 2);
    match (id, payload) {
        (Some(id), Some(payload)) => match parse_u64(id.as_str()) {
            Some(n) => Some((n, payload)),
            None => None,
        },
        _ => None,
    }
}

/// The token and the payload of a response line.
pub open spec fn spec_token_response(marker: Seq<char>, resp: Seq<char>) -> Option<
    (u64, Seq<char>),
> {
    match regex_captures(token_pattern(marker), resp) {
        Some(caps) => token_response_of(caps),
        None => None,
    }
}

/// Splits a response line into its token and its payload. `marker` is the
/// pattern of the sigil that stands between the two.
pub fn parse_response_with_token(marker: &str, resp: &str) -> (r: Option<(u64, String)>)
    ensures
        r.deep_view() == spec_token_response(marker@, resp@),
{
    let mut pattern = String::from_str("^([0-9]+)");
    pattern.append(marker);
    pattern.append("(.*)\n");
    match captures_all(pattern.as_str(), resp) {
        Some(caps) => token_response_from_captures(&caps),
        None => None,
    }
}

/// The pattern of a name in front of an equals sign.
pub open spec fn json_key_pattern() -> Seq<char> {
    "([a-zA-Z]+)="@
}

/// What takes the place of a name and its equals sign: the name in quotes,
/// and a colon.
pub open spec fn json_key_replacement() -> Seq<char> {
    "\"$1\" : "@
}

/// Rewrites a debugger record so that each `name=` reads `"name" : `.
/// `None` where the pattern could not be compiled.
pub fn gdb_output_to_json_repr(resp: &str) -> (r: Option<String>)
    ensures
        r.deep_view() == regex_replace_every(json_key_pattern(), resp@, json_key_replacement()),
{
    replace_every("([a-zA-Z]+)=", resp, "\"$1\" : ")
}


/// Bytes that have come in from a peer, and how many of them were read.
#[derive(Debug)]
pub struct ByteStream {
    data: Vec<u8>,
    pos: usize,
}

/// Why no message could be read.
#[derive(Debug, Clone, Copy, PartialEq, Eq, Structural)]
pub enum FrameError {
    /// The bytes of the message are no UTF-8 text.
    NotText,
    /// The bytes end before the terminator of the message: the stream is at
    /// its end, or the rest of the message has not come in yet.
    Incomplete,
}

/// How many bytes stand before the first zero byte, or before the end where
/// there is none.
pub open spec fn frame_len(bytes: Seq<u8>) -> int
    decreases bytes.len(),
{
    if bytes.len() == 0 || bytes[0] == 0 {
        0
    } else {
        1 + frame_len(bytes.skip(1))
    }
}

/// Whether a zero byte stands among the bytes.
pub open spec fn has_terminator(bytes: Seq<u8>) -> bool {
    frame_len(bytes) < bytes.len()
}

/// Where no byte before `n` is zero, the first zero byte is at `n` if one
/// is there, and there is none if `n` is the end.
proof fn lemma_frame_len_zero_at(bytes: Seq<u8>, n: int)
    requires
        0 <= n <= bytes.len(),
        forall|i: int| 0 <= i < n ==> bytes[i] != 0,
        n < bytes.len() ==> bytes[n] == 0,
    ensures
        frame_len(bytes) == n,
    decreases n,
{
    if n > 0 {
        let rest = bytes.skip(1);
        assert forall|i: int| 0 <= i < n - 1 implies rest[i] != 0 by {
            assert(rest[i] == bytes[i + 1]);
        }
        if n < bytes.len() {
            assert(rest[n - 1] == bytes[n]);
        }
        lemma_frame_len_zero_at(rest, n - 1);
    }
}

impl ByteStream {
    /// Every byte that has come in.
    pub closed spec fn bytes(&self) -> Seq<u8> {
        self.data@
    }

    /// How many of the bytes were read.
    pub closed spec fn consumed(&self) -> int {
        self.pos as int
    }

    /// No more bytes were read than have come in.
    pub open spec fn wf(&self) -> bool {
        0 <= self.consumed() <= self.bytes().len()
    }

    /// The bytes that were not read yet.
    pub open spec fn unread(&self) -> Seq<u8> {
        self.bytes().skip(self.consumed())
    }

    /// A stream in which `data` has come in and nothing was read.
    pub fn new(data: Vec<u8>) -> (r: ByteStream)
        ensures
            r.wf(),
            r.bytes() == data@,
            r.consumed() == 0,
    {
        ByteStream { data, pos: 0 }
    }

    /// Adds a byte that has come in.
    pub fn feed(&mut self, byte: u8)
        requires
            old(self).wf(),
        ensures
            final(self).wf(),
            final(self).bytes() == old(self).bytes().push(byte),
            final(self).consumed() == old(self).consumed(),
    {
        self.data.push(byte);
    }

    /// Where the first zero byte stands among the bytes not read yet, or
    /// the end of the bytes where there is none.
    fn find_terminator(&self) -> (end: usize)
        requires
            self.wf(),
        ensures
            self.consumed() <= end <= self.bytes().len(),
            end - self.consumed() == frame_len(self.unread()),
    {
        let mut end: usize = self.pos;
        while end < self.data.len() && self.data[end] != 0
            invariant
                self.pos <= end <= self.data.len(),
                forall|j: int| self.pos <= j < end ==> self.data@[j] != 0,
            decreases self.data.len() - end,
        {
            end = end + 1;
        }
        proof {
            lemma_frame_len_zero_at(self.unread(), end - self.pos);
        }
        end
    }

    /// Whether a whole message stands among the bytes not read yet.
    pub fn has_frame(&self) -> (r: bool)
        requires
            self.wf(),
        ensures
            r == has_terminator(self.unread()),
    {
        self.find_terminator() < self.data.len()
    }
}

/// Calls `String::from_utf8`, which gives the text that the bytes encode
/// in UTF-8 and refuses bytes that encode none.
#[verifier::external_body]
fn text_of_bytes(bytes: Vec<u8>) -> (r: Option<String>)
    ensures
        r is Some <==> vstd::utf8::valid_utf8(bytes@),
        r is Some ==> r->0@ == vstd::utf8::decode_utf8(bytes@),
{
    match String::from_utf8(bytes) {
        Ok(text) => Some(text),
        Err(_) => None,
    }
}

/// What reading one message makes of the bytes not read yet: the text that
/// the bytes before the first zero byte encode in UTF-8; an error where
/// they encode no text, and another where no zero byte is there.
pub open spec fn spec_read_frame(unread: Seq<u8>) -> Result<Seq<char>, FrameError> {
    let payload = unread.take(frame_len(unread));
    if !has_terminator(unread) {
        Err(FrameError::Incomplete)
    } else if vstd::utf8::valid_utf8(payload) {
        Ok(vstd::utf8::decode_utf8(payload))
    } else {
        Err(FrameError::NotText)
    }
}

/// How many bytes reading one message takes: the message and its
/// terminator, or nothing where no zero byte is there.
pub open spec fn spec_frame_taken(unread: Seq<u8>) -> int {
    if has_terminator(unread) {
        frame_len(unread) + 1
    } else {
        0
    }
}

/// Reads one message: the bytes up to the next zero byte, as UTF-8 text.
/// Where the bytes end before a zero byte nothing is read, and the bytes
/// stay for a later call.
pub fn read_until_null(stream: &mut ByteStream) -> (r: Result<String, FrameError>)
    requires
        old(stream).wf(),
    ensures
        final(stream).wf(),
        final(stream).bytes() == old(stream).bytes(),
        final(stream).consumed() == old(stream).consumed() + spec_frame_taken(
            old(stream).unread(),
        ),
        match spec_read_frame(old(stream).unread()) {
            Ok(text) => r is Ok && r->Ok_0@ == text,
            Err(e) => r == Err::<String, FrameError>(e),
        },
{
    let start: usize = stream.pos;
    let end: usize = stream.find_terminator();
    if end == stream.data.len() {
        return Err(FrameError::Incomplete);
    }
    let ghost unread = stream.unread();
    let mut payload: Vec<u8> = Vec::new();
    let mut i: usize = start;
    while i < end
        invariant
            start <= i <= end < stream.data.len(),
            payload@ == stream.data@.subrange(start as int, i as int),
        decreases end - i,
    {
        payload.push(stream.data[i]);
        assert(payload@ =~= stream.data@.subrange(start as int, i + 1));
        i = i + 1;
    }
    assert(payload@ =~= unread.take(end - start));
    stream.pos = end + 1;
    match text_of_bytes(payload) {
        Some(text) => Ok(text),
        None => Err(FrameError::NotText),
    }
}

/// A message as it travels: its text in UTF-8, then the zero byte.
pub fn write_frame(msg: &str) -> (r: Vec<u8>)
    ensures
        r@ == vstd::utf8::encode_utf8(msg@).push(0u8),
{
    let mut out = msg.as_bytes_vec();
    out.push(0);
    out
}

/// A character that is not the zero character has a code that is not zero.
proof fn lemma_char_code(c: char)
    ensures
        c != '\0' ==> c as u32 != 0,
{
}

/// The UTF-8 encoding of a scalar that is not zero holds no zero byte.
proof fn lemma_scalar_bytes(c: u32)
    requires
        c != 0,
    ensures
        forall|j: int|
            0 <= j < vstd::utf8::encode_scalar(c).len() ==> vstd::utf8::encode_scalar(c)[j] != 0,
{
    assert(c <= 0x7f ==> (c & 0x7F) as u8 != 0) by (bit_vector)
        requires
            c != 0,
    ;
    assert(0xC0u8 | ((c >> 6) & 0x1F) as u8 != 0) by (bit_vector);
    assert(0xE0u8 | ((c >> 12) & 0x0F) as u8 != 0) by (bit_vector);
    assert(0xF0u8 | ((c >> 18) & 0x7) as u8 != 0) by (bit_vector);
    assert(0x80u8 | (c & 0x3F) as u8 != 0) by (bit_vector);
    assert(0x80u8 | ((c >> 6) & 0x3F) as u8 != 0) by (bit_vector);
    assert(0x80u8 | ((c >> 12) & 0x3F) as u8 != 0) by (bit_vector);
}

/// The UTF-8 encoding of a text without the zero character holds no zero
/// byte.
pub proof fn lemma_encoding_has_no_terminator(text: Seq<char>)
    requires
        forall|i: int| 0 <= i < text.len() ==> text[i] != '\0',
    ensures
        forall|j: int|
            0 <= j < vstd::utf8::encode_utf8(text).len() ==> vstd::utf8::encode_utf8(text)[j]
                != 0,
    decreases text.len(),
{
    if text.len() > 0 {
        let head = vstd::utf8::encode_scalar(text[0] as u32);
        let tail = vstd::utf8::encode_utf8(text.drop_first());
        lemma_char_code(text[0]);
        lemma_scalar_bytes(text[0] as u32);
        assert forall|i: int| 0 <= i < text.drop_first().len() implies text.drop_first()[i]
            != '\0' by {
            assert(text.drop_first()[i] == text[i + 1]);
        }
        lemma_encoding_has_no_terminator(text.drop_first());
        assert forall|j: int| 0 <= j < (head + tail).len() implies (head + tail)[j] != 0 by {
            if j >= head.len() {
                assert((head + tail)[j] == tail[j - head.len()]);
            }
        }
    }
}

/// What was written as one message is read back as it was: a text without
/// the zero character comes out of its frame unchanged, whatever follows
/// the frame, and the frame is taken whole.
pub proof fn lemma_frame_round_trip(text: Seq<char>, rest: Seq<u8>)
    requires
        forall|i: int| 0 <= i < text.len() ==> text[i] != '\0',
    ensures
        spec_read_frame(vstd::utf8::encode_utf8(text).push(0u8) + rest) == Ok::<
            Seq<char>,
            FrameError,
        >(text),
        spec_frame_taken(vstd::utf8::encode_utf8(text).push(0u8) + rest)
            == vstd::utf8::encode_utf8(text).len() + 1,
{
    let payload = vstd::utf8::encode_utf8(text);
    let bytes = payload.push(0u8) + rest;
    let n = payload.len() as int;
    lemma_encoding_has_no_terminator(text);
    assert forall|i: int| 0 <= i < n implies bytes[i] != 0 by {
        assert(bytes[i] == payload[i]);
    }
    assert(bytes[n] == 0);
    lemma_frame_len_zero_at(bytes, n);
    assert(bytes.take(n) =~= payload);
    vstd::utf8::encode_utf8_valid_utf8(text);
    vstd::utf8::encode_utf8_decode_utf8(text);
}

/// A line without the carriage return at its end, where it has one.
pub open spec fn strip_cr(line: Seq<char>) -> Seq<char> {
    if line.len() > 0 && line.last() == '\r' {
        line.drop_last()
    } else {
        line
    }
}

/// The lines of `text` that are still to come, where `cur` is what was
/// read of the line at hand.
pub open spec fn lines_from(text: Seq<char>, cur: Seq<char>) -> Seq<Seq<char>>
    decreases text.len(),
{
    if text.len() == 0 {
        if cur.len() == 0 {
            Seq::empty()
        } else {
            seq![cur]
        }
    } else if text[0] == '\n' {
        seq![strip_cr(cur)] + lines_from(text.skip(1), Seq::empty())
    } else {
        lines_from(text.skip(1), cur.push(text[0]))
    }
}

/// The lines of a text: what stands between its line feeds, without the
/// carriage return in front of a line feed. A text that ends with a line
/// feed has no empty line behind it.
pub open spec fn spec_lines(text: Seq<char>) -> Seq<Seq<char>> {
    lines_from(text, Seq::empty())
}

/// The lines of a text.
pub fn text_lines(text: &str) -> (r: Vec<String>)
    ensures
        r.deep_view() == spec_lines(text@),
{
    let v = to_chars(text);
    let mut out: Vec<String> = Vec::new();
    let mut cur: Vec<char> = Vec::new();
    let mut i: usize = 0;
    assert(v@.skip(0) =~= v@);
    assert(out.deep_view() + lines_from(v@.skip(0), cur@) =~= spec_lines(text@));
    while i < v.len()
        invariant
            i <= v.len(),
            v@ == text@,
            spec_lines(text@) == out.deep_view() + lines_from(v@.skip(i as int), cur@),
        decreases v.len() - i,
    {
        let ghost rest = v@.skip(i as int);
        assert(rest[0] == v@[i as int]);
        assert(rest.skip(1) =~= v@.skip(i + 1));
        if v[i] == '\n' {
            let ghost line_view = strip_cr(cur@);
            let n: usize = cur.len();
            let line = if n > 0 && cur[n - 1] == '\r' {
                let l = sub_string(&cur, 0, n - 1);
                assert(cur@.subrange(0, n - 1) =~= cur@.drop_last());
                l
            } else {
                from_chars(&cur)
            };
            let ghost before = out.deep_view();
            out.push(line);
            assert(out.deep_view() =~= before.push(line_view));
            cur = Vec::new();
            assert(cur@ =~= Seq::<char>::empty());
            assert(before + (seq![line_view] + lines_from(rest.skip(1), Seq::empty()))
                =~= before.push(line_view) + lines_from(rest.skip(1), Seq::empty()));
        } else {
            cur.push(v[i]);
        }
        i = i + 1;
    }
    assert(v@.skip(v.len() as int) =~= Seq::<char>::empty());
    if cur.len() > 0 {
        let ghost before = out.deep_view();
        let line = from_chars(&cur);
        out.push(line);
        assert(out.deep_view() =~= before + seq![cur@]);
    } else {
        assert(out.deep_view() + Seq::<Seq<char>>::empty() =~= out.deep_view());
    }
    out
}

/// Whether `pat` stands somewhere in `text`.
pub open spec fn has_infix(text: Seq<char>, pat: Seq<char>) -> bool {
    exists|i: int|
        0 <= i && i + pat.len() <= text.len() && #[trigger] text.subrange(i, i + pat.len())
            == pat
}

/// Whether `pat` stands in `text` at position `at`.
fn matches_at(text: &Vec<char>, pat: &Vec<char>, at: usize) -> (r: bool)
    requires
        at + pat.len() <= text.len(),
    ensures
        r == (text@.subrange(at as int, at + pat.len()) == pat@),
{
    let mut j: usize = 0;
    while j < pat.len()
        invariant
            j <= pat.len(),
            at + pat.len() <= text.len(),
            forall|k: int| 0 <= k < j ==> text@[at + k] == pat@[k],
        decreases pat.len() - j,
    {
        if text[at + j] != pat[j] {
            assert(text@.subrange(at as int, at + pat.len())[j as int] != pat@[j as int]);
            return false;
        }
        j = j + 1;
    }
    assert(text@.subrange(at as int, at + pat.len()) =~= pat@);
    true
}

/// Whether `pat` stands somewhere in `text`.
pub fn contains_text(text: &str, pat: &str) -> (r: bool)
    ensures
        r == has_infix(text@, pat@),
{
    let t = to_chars(text);
    let p = to_chars(pat);
    if p.len() > t.len() {
        return false;
    }
    if p.len() == 0 {
        assert(text@.subrange(0int, 0int + pat@.len()) =~= pat@);
        return true;
    }
    let last: usize = t.len() - p.len();
    let mut i: usize = 0;
    while i <= last
        invariant
            i <= last + 1,
            last == t.len() - p.len(),
            last < t.len(),
            t@ == text@,
            p@ == pat@,
            forall|k: int| 0 <= k < i ==> #[trigger] t@.subrange(k, k + p.len()) != p@,
        decreases last + 1 - i,
    {
        if matches_at(&t, &p, i) {
            return true;
        }
        i = i + 1;
    }
    false
}

/// The lines that hold `pat`, each followed by a line feed except the
/// last, in one text.
pub open spec fn keep_lines(lines: Seq<Seq<char>>, pat: Seq<char>) -> Seq<char>
    decreases lines.len(),
{
    if lines.len() == 0 {
        Seq::empty()
    } else {
        let rest = keep_lines(lines.drop_last(), pat);
        if has_infix(lines.last(), pat) {
            if kept_count(lines.drop_last(), pat) > 0 {
                rest + "\n"@ + lines.last()
            } else {
                lines.last()
            }
        } else {
            rest
        }
    }
}

/// How many lines hold `pat`.
pub open spec fn kept_count(lines: Seq<Seq<char>>, pat: Seq<char>) -> nat
    decreases lines.len(),
{
    if lines.len() == 0 {
        0
    } else if has_infix(lines.last(), pat) {
        kept_count(lines.drop_last(), pat) + 1
    } else {
        kept_count(lines.drop_last(), pat)
    }
}

/// The lines that hold `pat`, joined by line feeds.
pub fn filter_lines(lines: &Vec<String>, pat: &str) -> (r: String)
    ensures
        r@ == keep_lines(lines.deep_view(), pat@),
{
    let mut out = String::new();
    let mut kept: usize = 0;
    let mut i: usize = 0;
    assert(lines.deep_view().take(0) =~= Seq::empty());
    while i < lines.len()
        invariant
            i <= lines.len(),
            kept <= i,
            kept == kept_count(lines.deep_view().take(i as int), pat@),
            kept == 0 ==> out@.len() == 0,
            out@ == keep_lines(lines.deep_view().take(i as int), pat@),
        decreases lines.len() - i,
    {
        assert(lines.deep_view().take(i + 1).drop_last() =~= lines.deep_view().take(i as int));
        assert(lines.deep_view().take(i + 1).last() == lines@[i as int]@);
        if contains_text(lines[i].as_str(), pat) {
            if kept > 0 {
                out.append("\n");
            } else {
                assert(out@ + lines@[i as int]@ =~= lines@[i as int]@);
            }
            out.append(lines[i].as_str());
            kept = kept + 1;
        }
        i = i + 1;
    }
    assert(lines.deep_view().take(lines.len() as int) =~= lines.deep_view());
    out
}

/// Where the first `c` stands in `text`, or the length where there is none.
pub open spec fn first_index_of(text: Seq<char>, c: char) -> int
    decreases text.len(),
{
    if text.len() == 0 || text[0] == c {
        0
    } else {
        1 + first_index_of(text.skip(1), c)
    }
}

/// Where no character before `n` is `c`, the first `c` stands at `n` if one
/// is there, and there is none if `n` is the end.
pub proof fn lemma_first_index_at(text: Seq<char>, c: char, n: int)
    requires
        0 <= n <= text.len(),
        forall|i: int| 0 <= i < n ==> text[i] != c,
        n < text.len() ==> text[n] == c,
    ensures
        first_index_of(text, c) == n,
    decreases n,
{
    if n > 0 {
        let rest = text.skip(1);
        assert forall|i: int| 0 <= i < n - 1 implies rest[i] != c by {
            assert(rest[i] == text[i + 1]);
        }
        if n < text.len() {
            assert(rest[n - 1] == text[n]);
        }
        lemma_first_index_at(rest, c, n - 1);
    }
}

/// Where the first `c` stands in `v` from `from` on, or the length of `v`.
fn find_char(v: &Vec<char>, from: usize, c: char) -> (r: usize)
    requires
        from <= v.len(),
    ensures
        from <= r <= v.len(),
        r - from == first_index_of(v@.skip(from as int), c),
{
    let mut i: usize = from;
    while i < v.len()
        invariant
            from <= i <= v.len(),
            forall|j: int| from <= j < i ==> v@[j] != c,
        decreases v.len() - i,
    {
        if v[i] == c {
            proof {
                lemma_first_index_at(v@.skip(from as int), c, i - from);
            }
            return i;
        }
        i = i + 1;
    }
    proof {
        lemma_first_index_at(v@.skip(from as int), c, i - from);
    }
    i
}

/// The number that a text reads as, or 0 where it reads as none.
pub open spec fn u64_or_zero(text: Seq<char>) -> u64 {
    match spec_parse_unsigned(text, u64::MAX as nat) {
        Some(n) => n as u64,
        None => 0,
    }
}

/// The memory node and the page count that one entry of a memory map names:
/// behind `N`, the two texts that exactly one equals sign parts, each the
/// number it reads as, or 0.
pub open spec fn numa_pair(entry: Seq<char>) -> Option<(u64, u64)> {
    match spec_strip_prefix(entry, "N"@) {
        Some(inner) => {
            let p = first_index_of(inner, '=');
            if p < inner.len() && first_index_of(inner.skip(p + 1), '=') == inner.len() - p - 1 {
                Some((u64_or_zero(inner.take(p)), u64_or_zero(inner.skip(p + 1))))
            } else {
                None
            }
        },
        None => None,
    }
}

/// The memory node and the page count that one entry of a memory map names.
pub fn read_numa_pair(entry: &str) -> (r: Option<(u64, u64)>)
    ensures
        r == numa_pair(entry@),
{
    match strip_prefix(entry, "N") {
        Some(inner) => {
            let v = to_chars(inner.as_str());
            assert(v@.skip(0) =~= v@);
            let p = find_char(&v, 0, '=');
            if p == v.len() {
                return None;
            }
            let q = find_char(&v, p + 1, '=');
            if q != v.len() {
                return None;
            }
            let head = sub_string(&v, 0, p);
            let tail = sub_string(&v, p + 1, v.len());
            assert(v@.subrange(0, p as int) =~= v@.take(p as int));
            assert(v@.subrange(p + 1, v.len() as int) =~= v@.skip(p + 1));
            let numa: u64 = match parse_u64(head.as_str()) {
                Some(n) => n,
                None => 0,
            };
            let count: u64 = match parse_u64(tail.as_str()) {
                Some(n) => n,
                None => 0,
            };
            Some((numa, count))
        },
        None => None,
    }
}

/// The pages of each memory node, summed over the entries, each sum held at
/// `u64::MAX`.
pub open spec fn numa_totals(entries: Seq<Seq<char>>) -> Map<u64, u64>
    decreases entries.len(),
{
    if entries.len() == 0 {
        Map::empty()
    } else {
        let rest = numa_totals(entries.drop_last());
        match numa_pair(entries.last()) {
            Some(pair) => {
                let before: u64 = if rest.contains_key(pair.0) {
                    rest[pair.0]
                } else {
                    0
                };
                rest.insert(
                    pair.0,
                    if before + pair.1 <= u64::MAX {
                        (before + pair.1) as u64
                    } else {
                        u64::MAX
                    },
                )
            },
            None => rest,
        }
    }
}

/// The pattern of one entry of a memory map: a memory node and its pages.
pub open spec fn numa_pattern() -> Seq<char> {
    "(N[0-9]+=[0-9]+)"@
}

/// The pages of each memory node that the heap lines of a memory map name.
/// `None` where the pattern could not be compiled.
pub open spec fn spec_numa_totals(numa_maps: Seq<char>) -> Option<Map<u64, u64>> {
    match regex_captures(numa_pattern(), keep_lines(spec_lines(numa_maps), " heap "@)) {
        Some(caps) => Some(numa_totals(pick_group(caps, 1))),
        None => None,
    }
}

/// Why no memory node could be named.
#[derive(Debug, Clone, Copy, PartialEq, Eq, Structural)]
pub enum NumaError {
    /// The pattern of an entry could not be compiled.
    BadPattern,
    /// The memory map names no memory node for the heap.
    Empty,
}

/// The pages of each memory node that a list of entries names.
pub fn numa_totals_of(entries: &Vec<String>) -> (r: HashMap<u64, u64>)
    ensures
        r@ == numa_totals(entries.deep_view()),
{
    broadcast use vstd::std_specs::hash::group_hash_axioms;

    let mut numa_count: HashMap<u64, u64> = HashMap::new();
    let mut i: usize = 0;
    assert(entries.deep_view().take(0) =~= Seq::empty());
    while i < entries.len()
        invariant
            i <= entries.len(),
            numa_count@ == numa_totals(entries.deep_view().take(i as int)),
        decreases entries.len() - i,
    {
        assert(entries.deep_view().take(i + 1).drop_last() =~= entries.deep_view().take(
            i as int,
        ));
        assert(entries.deep_view().take(i + 1).last() == entries@[i as int]@);
        match read_numa_pair(entries[i].as_str()) {
            Some(pair) => {
                let before: u64 = match numa_count.get(&pair.0) {
                    Some(v) => *v,
                    None => 0,
                };
                numa_count.insert(pair.0, before.saturating_add(pair.1));
            },
            None => {},
        }
        i = i + 1;
    }
    assert(entries.deep_view().take(entries.len() as int) =~= entries.deep_view());
    numa_count
}

/// A memory node with the most pages, or `None` where there is no node.
pub fn dominating_of(totals: &HashMap<u64, u64>) -> (r: Option<u64>)
    ensures
        r is None <==> totals@.dom() =~= Set::<u64>::empty(),
        r is Some ==> totals@.contains_key(r->0) && forall|k: u64|
            totals@.contains_key(k) ==> totals@[k] <= totals@[r->0],
{
    broadcast use vstd::std_specs::hash::group_hash_axioms;

    let keys = crate::snapshot::map_keys(totals);
    let mut best: Option<u64> = None;
    let mut most: u64 = 0;
    let mut i: usize = 0;
    while i < keys.len()
        invariant
            i <= keys.len(),
            keys@.to_set() == totals@.dom(),
            best is None ==> i == 0,
            best is Some ==> totals@.contains_key(best->0) && most == totals@[best->0],
            forall|j: int| 0 <= j < i ==> totals@[#[trigger] keys@[j]] <= most,
        decreases keys.len() - i,
    {
        assert(keys@.to_set().contains(keys@[i as int]));
        match totals.get(&keys[i]) {
            Some(v) => {
                if best.is_none() || *v >= most {
                    best = Some(keys[i]);
                    most = *v;
                }
            },
            None => {
                assert(false);
            },
        }
        i = i + 1;
    }
    proof {
        if best is Some {
            assert forall|k: u64| totals@.contains_key(k) implies totals@[k] <= totals@[best->0] by {
                assert(keys@.to_set().contains(k));
                let j = choose|j: int| 0 <= j < keys@.len() && keys@[j] == k;
                assert(totals@[keys@[j]] <= most);
            }
        } else {
            assert forall|k: u64| !totals@.contains_key(k) by {
                if totals@.contains_key(k) {
                    assert(keys@.to_set().contains(k));
                }
            }
        }
    }
    best
}

/// The memory node on which most of the heap of a process lives, read from
/// the text of its memory map: of the lines that speak of the heap, the node
/// with the most pages.
pub fn dominating_numa_id(numa_maps: &str) -> (r: Result<u64, NumaError>)
    ensures
        match spec_numa_totals(numa_maps@) {
            None => r == Err::<u64, NumaError>(NumaError::BadPattern),
            Some(totals) => if totals.dom() =~= Set::<u64>::empty() {
                r == Err::<u64, NumaError>(NumaError::Empty)
            } else {
                r is Ok && totals.contains_key(r->Ok_0) && forall|k: u64|
                    totals.contains_key(k) ==> totals[k] <= totals[r->Ok_0]
            },
        },
{
    let lines = text_lines(numa_maps);
    let data = filter_lines(&lines, " heap ");
    match captures_all("(N[0-9]+=[0-9]+)", data.as_str()) {
        Some(caps) => {
            let entries = groups_from_captures(&caps, 1);
            let totals = numa_totals_of(&entries);
            match dominating_of(&totals) {
                Some(k) => Ok(k),
                None => Err(NumaError::Empty),
            }
        },
        None => Err(NumaError::BadPattern),
    }
}

} // verus!
