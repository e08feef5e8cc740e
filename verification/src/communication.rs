//! Commands arriving from outside the simulation, and their decoder.
//!
//! The wire form is a line of text: `reset`, `toggle x,y`, or
//! `tower x,y {s|m|l}`. Tokens are separated by ASCII whitespace; anything
//! malformed decodes to no command at all, with no partial effect.
use crate::components::TowerType;
use crate::hex::Hex;
use vstd::prelude::*;
use vstd::string::StringSliceAdditionalSpecFns;

verus! {

/// Intent to place a tower of a given type on a given cell.
#[derive(Clone, Copy, Debug, PartialEq, Eq, Structural)]
pub struct CreateTower {
    pub tower_type: TowerType,
    pub hex_pos: Hex,
}

/// Notice that the match has ended.
#[derive(Clone, Copy, Debug, PartialEq, Eq, Structural)]
pub struct GameOver;

/// Intent to flip one tile between plains and mountain.
#[derive(Clone, Copy, Debug, PartialEq, Eq, Structural)]
pub struct ToggleTile {
    pub hex_pos: Hex,
}

/// Request to rebuild the damage overlay.
#[derive(Clone, Copy, Debug, PartialEq, Eq, Structural)]
pub struct RefreshTowerDamage;

/// Request to discard the board and start over.
#[derive(Clone, Copy, Debug, PartialEq, Eq, Structural)]
pub struct Restart;

/// Request to recompute the spawn routes.
#[derive(Clone, Copy, Debug, PartialEq, Eq, Structural)]
pub struct RecalculateEnemyPaths;

/// A decoded outside command.
#[derive(Clone, Copy, Debug, PartialEq, Eq, Structural)]
pub enum TDCommand {
    Toggle(ToggleTile),
    Restart(Restart),
    Tower(CreateTower),
}

/// ASCII whitespace, the token separators.
pub open spec fn is_ws(b: u8) -> bool {
    b == 32 || b == 9 || b == 10 || b == 13
}

/// Length of the leading run of non-whitespace bytes.
pub open spec fn token_len(bs: Seq<u8>) -> int
    decreases bs.len(),
{
    if bs.len() == 0 || is_ws(bs[0]) {
        0
    } else {
        1 + token_len(bs.drop_first())
    }
}

pub proof fn lemma_token_len_le(bs: Seq<u8>)
    ensures
        0 <= token_len(bs) <= bs.len(),
    decreases bs.len(),
{
    if bs.len() > 0 && !is_ws(bs[0]) {
        lemma_token_len_le(bs.drop_first());
    }
}

/// The whitespace-separated tokens of the input.
pub open spec fn spec_tokens(bs: Seq<u8>) -> Seq<Seq<u8>>
    decreases bs.len(),
    via spec_tokens_decreases
{
    if bs.len() == 0 {
        Seq::empty()
    } else if is_ws(bs[0]) {
        spec_tokens(bs.drop_first())
    } else {
        seq![bs.take(token_len(bs))] + spec_tokens(bs.skip(token_len(bs)))
    }
}

#[via_fn]
proof fn spec_tokens_decreases(bs: Seq<u8>) {
    if bs.len() > 0 && !is_ws(bs[0]) {
        lemma_token_len_le(bs.drop_first());
    }
}

/// A scan that stops at the first whitespace byte measures the token.
proof fn lemma_token_len_exact(s: Seq<u8>, k: int)
    requires
        0 <= k <= s.len(),
        forall|m: int| 0 <= m < k ==> !is_ws(#[trigger] s[m]),
        k == s.len() || is_ws(s[k]),
    ensures
        token_len(s) == k,
    decreases k,
{
    if k > 0 {
        assert(!is_ws(s[0]));
        assert forall|m: int| 0 <= m < k - 1 implies !is_ws(#[trigger] s.drop_first()[m]) by {
            assert(s.drop_first()[m] == s[m + 1]);
        }
        if k - 1 < s.drop_first().len() {
            assert(s.drop_first()[k - 1] == s[k]);
        }
        lemma_token_len_exact(s.drop_first(), k - 1);
    }
}

/// Split a byte string into its whitespace-separated tokens.
fn tokenize(bs: &[u8]) -> (toks: Vec<Vec<u8>>)
    ensures
        toks@.map_values(|t: Vec<u8>| t@) == spec_tokens(bs@),
{
    let n = bs.len();
    let mut toks: Vec<Vec<u8>> = Vec::new();
    let mut i: usize = 0;
    proof {
        assert(bs@.skip(0) =~= bs@);
        assert(toks@.map_values(|t: Vec<u8>| t@) + spec_tokens(bs@) =~= spec_tokens(bs@));
    }
    while i < n
        invariant
            i <= n,
            n == bs@.len(),
            spec_tokens(bs@) == toks@.map_values(|t: Vec<u8>| t@) + spec_tokens(
                bs@.skip(i as int),
            ),
        decreases n - i,
    {
        if is_ws_at(bs, i) {
            proof {
                assert(bs@.skip(i as int).drop_first() =~= bs@.skip(i as int + 1));
                assert(bs@.skip(i as int)[0] == bs@[i as int]);
            }
            i += 1;
        } else {
            let start = i;
            let mut j = i;
            let mut tok: Vec<u8> = Vec::new();
            while j < n && !is_ws_at(bs, j)
                invariant
                    start <= j <= n,
                    n == bs@.len(),
                    forall|m: int| start <= m < j ==> !is_ws(#[trigger] bs@[m]),
                    tok@ == bs@.subrange(start as int, j as int),
                decreases n - j,
            {
                tok.push(bs[j]);
                j += 1;
            }
            proof {
                let rest = bs@.skip(start as int);
                assert forall|m: int| 0 <= m < j - start implies !is_ws(#[trigger] rest[m]) by {
                    assert(rest[m] == bs@[start + m]);
                }
                if j < n {
                    assert(rest[j - start] == bs@[j as int]);
                }
                lemma_token_len_exact(rest, j - start);
                assert(rest.take(j - start) =~= bs@.subrange(start as int, j as int));
                assert(rest.skip(j - start) =~= bs@.skip(j as int));
                assert(spec_tokens(rest) == seq![tok@] + spec_tokens(bs@.skip(j as int)));
            }
            let ghost old_toks = toks@;
            toks.push(tok);
            proof {
                assert(toks@.map_values(|t: Vec<u8>| t@) =~= old_toks.map_values(
                    |t: Vec<u8>| t@,
                ).push(tok@));
                assert(old_toks.map_values(|t: Vec<u8>| t@) + (seq![tok@] + spec_tokens(
                    bs@.skip(j as int),
                )) =~= toks@.map_values(|t: Vec<u8>| t@) + spec_tokens(bs@.skip(j as int)));
            }
            i = j;
        }
    }
    proof {
        assert(bs@.skip(n as int) =~= Seq::<u8>::empty());
        assert(spec_tokens(bs@) =~= toks@.map_values(|t: Vec<u8>| t@));
    }
    toks
}

fn is_ws_at(bs: &[u8], i: usize) -> (r: bool)
    requires
        i < bs@.len(),
    ensures
        r == is_ws(bs@[i as int]),
{
    let b = bs[i];
    b == 32 || b == 9 || b == 10 || b == 13
}

/// An ASCII decimal digit.
pub open spec fn is_digit(b: u8) -> bool {
    48 <= b <= 57
}

/// The value of a digit string, most significant first.
pub open spec fn digits_val(s: Seq<u8>) -> int
    decreases s.len(),
{
    if s.len() == 0 {
        0
    } else {
        digits_val(s.drop_last()) * 10 + (s.last() - 48)
    }
}

pub open spec fn all_digits(s: Seq<u8>) -> bool {
    s.len() > 0 && forall|m: int| 0 <= m < s.len() ==> is_digit(#[trigger] s[m])
}

proof fn lemma_digits_nonneg(s: Seq<u8>)
    requires
        forall|m: int| 0 <= m < s.len() ==> is_digit(#[trigger] s[m]),
    ensures
        digits_val(s) >= 0,
    decreases s.len(),
{
    if s.len() > 0 {
        lemma_digits_nonneg(s.drop_last());
    }
}

/// A digit string is worth at least its prefixes.
proof fn lemma_digits_prefix_le(s: Seq<u8>, k: int)
    requires
        0 <= k <= s.len(),
        forall|m: int| 0 <= m < s.len() ==> is_digit(#[trigger] s[m]),
    ensures
        digits_val(s.take(k)) <= digits_val(s),
    decreases s.len() - k,
{
    if k < s.len() {
        lemma_digits_prefix_le(s, k + 1);
        assert(s.take(k + 1).drop_last() =~= s.take(k));
        assert(s.take(k + 1).last() == s[k]);
        lemma_digits_nonneg(s.take(k));
    } else {
        assert(s.take(k) =~= s);
    }
}

/// The signed decimal integers the command grammar accepts: an optional
/// sign followed by one or more digits, in range for `i32`.
pub open spec fn spec_parse_i32(s: Seq<u8>) -> Option<i32> {
    if s.len() > 0 && (s[0] == 45 || s[0] == 43) {
        let d = s.drop_first();
        let neg = s[0] == 45;
        if all_digits(d) {
            if neg && -digits_val(d) >= i32::MIN {
                Some((-digits_val(d)) as i32)
            } else if !neg && digits_val(d) <= i32::MAX {
                Some(digits_val(d) as i32)
            } else {
                None
            }
        } else {
            None
        }
    } else if all_digits(s) && digits_val(s) <= i32::MAX {
        Some(digits_val(s) as i32)
    } else {
        None
    }
}

/// Parse the digit part of an integer token.
fn parse_digits(s: &Vec<u8>, from: usize) -> (r: Option<u64>)
    requires
        from < s@.len(),
    ensures
        match r {
            Some(v) => all_digits(s@.skip(from as int)) && v == digits_val(s@.skip(from as int))
                && v <= 2147483648,
            None => !(all_digits(s@.skip(from as int)) && digits_val(s@.skip(from as int))
                <= 2147483648),
        },
{
    let ghost d = s@.skip(from as int);
    let n = s.len();
    let mut acc: u64 = 0;
    let mut j = from;
    while j < n
        invariant
            from <= j <= n,
            n == s@.len(),
            d == s@.skip(from as int),
            forall|m: int| 0 <= m < j - from ==> is_digit(#[trigger] d[m]),
            acc == digits_val(d.take(j - from)),
            acc <= 2147483648,
        decreases n - j,
    {
        let b = s[j];
        if b < 48 || b > 57 {
            proof {
                assert(d[j - from] == s@[j as int]);
                assert(!is_digit(d[j - from]));
            }
            return None;
        }
        proof {
            assert(d[j - from] == s@[j as int]);
            assert(d.take(j - from + 1).drop_last() =~= d.take(j - from));
            assert(d.take(j - from + 1).last() == d[j - from]);
        }
        let next: u64 = acc * 10 + ((b - 48) as u64);
        if next > 2147483648 {
            proof {
                assert(digits_val(d.take(j - from + 1)) == next);
                assert forall|m: int| 0 <= m < d.len() implies is_digit(#[trigger] d[m]) || !(
                all_digits(d) && digits_val(d) <= 2147483648) by {}
                if all_digits(d) {
                    lemma_digits_prefix_le(d, j - from + 1);
                }
            }
            return None;
        }
        acc = next;
        j += 1;
    }
    if j == from {
        proof {
            assert(d.len() == 0);
        }
        return None;
    }
    proof {
        assert(d.take(n - from) =~= d);
        assert(all_digits(d));
    }
    Some(acc)
}

/// Parse one signed integer token.
fn parse_i32_bytes(s: &Vec<u8>) -> (r: Option<i32>)
    ensures
        r == spec_parse_i32(s@),
{
    let n = s.len();
    if n == 0 {
        return None;
    }
    let first = s[0];
    if first == 45 || first == 43 {
        if n == 1 {
            proof {
                assert(s@.drop_first().len() == 0);
            }
            return None;
        }
        let digits = parse_digits(s, 1);
        proof {
            assert(s@.skip(1) =~= s@.drop_first());
        }
        match digits {
            None => None,
            Some(v) => {
                if first == 45 {
                    Some((-(v as i64)) as i32)
                } else {
                    if v > 2147483647 {
                        None
                    } else {
                        Some(v as i32)
                    }
                }
            },
        }
    } else {
        proof {
            assert(s@.skip(0) =~= s@);
        }
        match parse_digits(s, 0) {
            None => None,
            Some(v) => {
                if v > 2147483647 {
                    None
                } else {
                    Some(v as i32)
                }
            },
        }
    }
}

/// Index of the first comma in a token, or its length when there is none.
pub open spec fn first_comma(s: Seq<u8>) -> int
    decreases s.len(),
{
    if s.len() == 0 {
        0
    } else if s[0] == 44 {
        0
    } else {
        1 + first_comma(s.drop_first())
    }
}

proof fn lemma_first_comma(s: Seq<u8>, k: int)
    requires
        0 <= k <= s.len(),
        forall|m: int| 0 <= m < k ==> #[trigger] s[m] != 44,
        k == s.len() || s[k] == 44,
    ensures
        first_comma(s) == k,
    decreases k,
{
    if k > 0 {
        assert(s[0] != 44);
        assert forall|m: int| 0 <= m < k - 1 implies #[trigger] s.drop_first()[m] != 44 by {
            assert(s.drop_first()[m] == s[m + 1]);
        }
        if k - 1 < s.drop_first().len() {
            assert(s.drop_first()[k - 1] == s[k]);
        }
        lemma_first_comma(s.drop_first(), k - 1);
    }
}

/// The coordinate pair `x,y` of a toggle or tower command.
pub open spec fn spec_parse_pair(s: Seq<u8>) -> Option<Hex> {
    let p = first_comma(s);
    if p == s.len() {
        None
    } else {
        match (spec_parse_i32(s.take(p)), spec_parse_i32(s.skip(p + 1))) {
            (Some(x), Some(y)) => Some(Hex { x, y }),
            _ => None,
        }
    }
}

/// Parse a coordinate token.
fn parse_pair(s: &Vec<u8>) -> (r: Option<Hex>)
    ensures
        r == spec_parse_pair(s@),
{
    let n = s.len();
    let mut p: usize = 0;
    while p < n && s[p] != 44
        invariant
            p <= n,
            n == s@.len(),
            forall|m: int| 0 <= m < p ==> #[trigger] s@[m] != 44,
        decreases n - p,
    {
        p += 1;
    }
    proof {
        lemma_first_comma(s@, p as int);
    }
    if p == n {
        return None;
    }
    let mut left: Vec<u8> = Vec::new();
    let mut m: usize = 0;
    while m < p
        invariant
            m <= p,
            p < n,
            n == s@.len(),
            left@ == s@.subrange(0, m as int),
        decreases p - m,
    {
        left.push(s[m]);
        m += 1;
    }
    let mut right: Vec<u8> = Vec::new();
    let mut q: usize = p + 1;
    while q < n
        invariant
            p + 1 <= q <= n,
            n == s@.len(),
            right@ == s@.subrange(p as int + 1, q as int),
        decreases n - q,
    {
        right.push(s[q]);
        q += 1;
    }
    proof {
        assert(left@ =~= s@.take(p as int));
        assert(right@ =~= s@.skip(p as int + 1));
    }
    let x = match parse_i32_bytes(&left) {
        Some(x) => x,
        None => {
            return None;
        },
    };
    let y = match parse_i32_bytes(&right) {
        Some(y) => y,
        None => {
            return None;
        },
    };
    Some(Hex { x, y })
}

/// The tower-size letter of a tower command.
pub open spec fn spec_tower_letter(s: Seq<u8>) -> Option<TowerType> {
    if s == seq![115u8] {
        Some(TowerType::Small)
    } else if s == seq![109u8] {
        Some(TowerType::Medium)
    } else if s == seq![108u8] {
        Some(TowerType::Large)
    } else {
        None
    }
}

/// What a line of outside input decodes to: `reset`, `toggle x,y`, or
/// `tower x,y {s|m|l}`, tokenized on ASCII whitespace; everything else is
/// no command.
pub open spec fn spec_parse_command(bs: Seq<u8>) -> Option<TDCommand> {
    let toks = spec_tokens(bs);
    if toks.len() == 0 {
        None
    } else if toks[0] == seq![114u8, 101u8, 115u8, 101u8, 116u8] {
        Some(TDCommand::Restart(Restart))
    } else if toks[0] == seq![116u8, 111u8, 103u8, 103u8, 108u8, 101u8] {
        if toks.len() >= 2 {
            match spec_parse_pair(toks[1]) {
                Some(h) => Some(TDCommand::Toggle(ToggleTile { hex_pos: h })),
                None => None,
            }
        } else {
            None
        }
    } else if toks[0] == seq![116u8, 111u8, 119u8, 101u8, 114u8] {
        if toks.len() >= 3 {
            match (spec_parse_pair(toks[1]), spec_tower_letter(toks[2])) {
                (Some(h), Some(tt)) => Some(
                    TDCommand::Tower(CreateTower { tower_type: tt, hex_pos: h }),
                ),
                _ => None,
            }
        } else {
            None
        }
    } else {
        None
    }
}

fn is_reset_tok(v: &Vec<u8>) -> (r: bool)
    ensures
        r == (v@ == seq![114u8, 101u8, 115u8, 101u8, 116u8]),
{
    let r = v.len() == 5 && v[0] == 114 && v[1] == 101 && v[2] == 115 && v[3] == 101 && v[4]
        == 116;
    proof {
        if r {
            assert(v@ =~= seq![114u8, 101u8, 115u8, 101u8, 116u8]);
        }
    }
    r
}

fn is_toggle_tok(v: &Vec<u8>) -> (r: bool)
    ensures
        r == (v@ == seq![116u8, 111u8, 103u8, 103u8, 108u8, 101u8]),
{
    let r = v.len() == 6 && v[0] == 116 && v[1] == 111 && v[2] == 103 && v[3] == 103 && v[4]
        == 108 && v[5] == 101;
    proof {
        if r {
            assert(v@ =~= seq![116u8, 111u8, 103u8, 103u8, 108u8, 101u8]);
        }
    }
    r
}

fn is_tower_tok(v: &Vec<u8>) -> (r: bool)
    ensures
        r == (v@ == seq![116u8, 111u8, 119u8, 101u8, 114u8]),
{
    let r = v.len() == 5 && v[0] == 116 && v[1] == 111 && v[2] == 119 && v[3] == 101 && v[4]
        == 114;
    proof {
        if r {
            assert(v@ =~= seq![116u8, 111u8, 119u8, 101u8, 114u8]);
        }
    }
    r
}

fn letter_type(v: &Vec<u8>) -> (r: Option<TowerType>)
    ensures
        r == spec_tower_letter(v@),
{
    if v.len() == 1 {
        let b = v[0];
        if b == 115 {
            proof {
                assert(v@ =~= seq![115u8]);
            }
            Some(TowerType::Small)
        } else if b == 109 {
            proof {
                assert(v@ =~= seq![109u8]);
            }
            Some(TowerType::Medium)
        } else if b == 108 {
            proof {
                assert(v@ =~= seq![108u8]);
            }
            Some(TowerType::Large)
        } else {
            None
        }
    } else {
        None
    }
}

/// Decode one line of outside input into a command, or nothing when it is
/// malformed: wrong keyword, wrong arity, unparseable integers, or an
/// unknown tower letter.
pub fn parse_command(input: &str) -> (r: Option<TDCommand>)
    ensures
        r == spec_parse_command(input.spec_bytes()),
{
    let bs = input.as_bytes();
    let toks = tokenize(bs);
    proof {
        assert(toks@.map_values(|t: Vec<u8>| t@) == spec_tokens(input.spec_bytes()));
    }
    if toks.len() == 0 {
        return None;
    }
    proof {
        assert(toks@.map_values(|t: Vec<u8>| t@)[0] == toks@[0]@);
    }
    let head = &toks[0];
    if is_reset_tok(head) {
        return Some(TDCommand::Restart(Restart));
    }
    if is_toggle_tok(head) {
        if toks.len() >= 2 {
            proof {
                assert(toks@.map_values(|t: Vec<u8>| t@)[1] == toks@[1]@);
            }
            return match parse_pair(&toks[1]) {
                Some(h) => Some(TDCommand::Toggle(ToggleTile { hex_pos: h })),
                None => None,
            };
        }
        return None;
    }
    if is_tower_tok(head) {
        if toks.len() >= 3 {
            proof {
                assert(toks@.map_values(|t: Vec<u8>| t@)[1] == toks@[1]@);
                assert(toks@.map_values(|t: Vec<u8>| t@)[2] == toks@[2]@);
            }
            let h = match parse_pair(&toks[1]) {
                Some(h) => h,
                None => {
                    return None;
                },
            };
            let tt = match letter_type(&toks[2]) {
                Some(tt) => tt,
                None => {
                    return None;
                },
            };
            return Some(TDCommand::Tower(CreateTower { tower_type: tt, hex_pos: h }));
        }
        return None;
    }
    None
}

} // verus!
