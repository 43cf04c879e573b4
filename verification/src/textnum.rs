//! Text the engine produces: decimal numbers, team labels, the champion
//! catalog, and the whitespace test used to validate lobby names.

use vstd::prelude::*;
use vstd::string::StringExecFns;

verus! {

pub open spec fn dec_digit(d: nat) -> char {
    if d == 0 {
        '0'
    } else if d == 1 {
        '1'
    } else if d == 2 {
        '2'
    } else if d == 3 {
        '3'
    } else if d == 4 {
        '4'
    } else if d == 5 {
        '5'
    } else if d == 6 {
        '6'
    } else if d == 7 {
        '7'
    } else if d == 8 {
        '8'
    } else {
        '9'
    }
}

/// Decimal rendering of `n`, most significant digit first, no leading zeros.
pub open spec fn dec_seq(n: nat) -> Seq<char>
    decreases n,
{
    if n < 10 {
        seq![dec_digit(n)]
    } else {
        dec_seq(n / 10).push(dec_digit(n % 10))
    }
}

fn digit_str(d: u64) -> (r: &'static str)
    requires
        d < 10,
    ensures
        r@ == seq![dec_digit(d as nat)],
{
    proof {
        reveal_strlit("0");
        reveal_strlit("1");
        reveal_strlit("2");
        reveal_strlit("3");
        reveal_strlit("4");
        reveal_strlit("5");
        reveal_strlit("6");
        reveal_strlit("7");
        reveal_strlit("8");
        reveal_strlit("9");
    }
    let r = match d {
        0 => "0",
        1 => "1",
        2 => "2",
        3 => "3",
        4 => "4",
        5 => "5",
        6 => "6",
        7 => "7",
        8 => "8",
        _ => "9",
    };
    proof {
        assert(r@ =~= seq![dec_digit(d as nat)]);
    }
    r
}

/// Decimal rendering of `n` as an owned string.
pub fn dec_string(n: u64) -> (r: String)
    ensures
        r@ == dec_seq(n as nat),
    decreases n,
{
    if n < 10 {
        digit_str(n).to_owned()
    } else {
        let mut s = dec_string(n / 10);
        s.append(digit_str(n % 10));
        proof {
            assert(s@ =~= dec_seq(n as nat));
        }
        s
    }
}

/// Display label of a team: the first two teams keep their traditional
/// names, the rest are numbered.
pub open spec fn team_label(t: nat) -> Seq<char> {
    if t == 0 {
        "Red Team"@
    } else if t == 1 {
        "Blue Team"@
    } else {
        "Team "@ + dec_seq(t)
    }
}

pub fn team_label_string(t: usize) -> (r: String)
    ensures
        r@ == team_label(t as nat),
{
    if t == 0 {
        "Red Team".to_owned()
    } else if t == 1 {
        "Blue Team".to_owned()
    } else {
        let mut s = "Team ".to_owned();
        s.append(dec_string(t as u64).as_str());
        proof {
            assert(s@ =~= team_label(t as nat));
        }
        s
    }
}

/// How a guard refusal names a team: always by its number.
pub open spec fn team_ref(t: nat) -> Seq<char> {
    "Team "@ + dec_seq(t)
}

pub fn team_ref_string(t: usize) -> (r: String)
    ensures
        r@ == team_ref(t as nat),
{
    let mut s = "Team ".to_owned();
    s.append(dec_string(t as u64).as_str());
    proof {
        assert(s@ =~= team_ref(t as nat));
    }
    s
}

/// Name of the `n`-th champion of the catalog.
pub open spec fn champ_name(n: nat) -> Seq<char> {
    "Champ "@ + dec_seq(n)
}

/// The champion catalog shown in champion selection: a fixed list of one
/// hundred champions, in a stable order.
pub open spec fn champ_catalog() -> Seq<Seq<char>> {
    Seq::new(100, |i: int| champ_name((i + 1) as nat))
}

pub fn champ_catalog_vec() -> (r: Vec<String>)
    ensures
        r.deep_view() == champ_catalog(),
{
    let mut r: Vec<String> = Vec::new();
    let mut n: u64 = 1;
    while n <= 100
        invariant
            1 <= n <= 101,
            r@.len() == n - 1,
            forall|i: int| 0 <= i < r@.len() ==> r@[i]@ == champ_name((i + 1) as nat),
        decreases 101 - n,
    {
        let mut s = "Champ ".to_owned();
        s.append(dec_string(n).as_str());
        r.push(s);
        n += 1;
    }
    proof {
        assert(r.deep_view() =~= champ_catalog());
    }
    r
}

/// Whatever `char::is_whitespace` holds of a character; a function of the
/// character alone.
pub uninterp spec fn whitespace_char(c: char) -> bool;

/// Relies on char::is_whitespace: whether the character has the Unicode
/// whitespace property, a function of the character alone.
#[verifier::external_body]
fn char_is_whitespace(c: char) -> (r: bool)
    ensures
        r == whitespace_char(c),
{
    c.is_whitespace()
}

pub open spec fn all_whitespace(s: Seq<char>) -> bool {
    forall|i: int| 0 <= i < s.len() ==> whitespace_char(#[trigger] s[i])
}

/// Whether the string consists of whitespace only (an empty string does).
pub fn is_blank(s: &str) -> (r: bool)
    ensures
        r == all_whitespace(s@),
{
    let n = s.unicode_len();
    let mut i: usize = 0;
    while i < n
        invariant
            n == s@.len(),
            i <= n,
            forall|j: int| 0 <= j < i ==> whitespace_char(#[trigger] s@[j]),
        decreases n - i,
    {
        if !char_is_whitespace(s.get_char(i)) {
            return false;
        }
        i += 1;
    }
    true
}

/// The default name of a freshly created lobby.
pub open spec fn default_lobby_name(owner: Seq<char>) -> Seq<char> {
    owner + "'s Lobby"@
}

pub fn default_lobby_name_string(owner: &String) -> (r: String)
    ensures
        r@ == default_lobby_name(owner@),
{
    let mut s = owner.clone();
    s.append("'s Lobby");
    s
}

} // verus!
