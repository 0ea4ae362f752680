//! Plain records that the controller exchanges with its administration side
//! and with the device-identification service.

use vstd::prelude::*;
use vstd::string::{StrSliceExecFns, StringExecFns};

verus! {

/// A device as the identification service knows it.
#[derive(Clone, Debug, PartialEq, Eq)]
pub struct Thing {
    pub serial: String,
    pub mac_addr: String,
    pub ipv4_addr: String,
    pub ipv6_addr: String,
    pub hostname: String,
}

impl Thing {
    pub fn new(
        serial: String,
        mac_addr: String,
        ipv4_addr: String,
        ipv6_addr: String,
        hostname: String,
    ) -> (r: Thing)
        ensures
            r.serial@ == serial@,
            r.mac_addr@ == mac_addr@,
            r.ipv4_addr@ == ipv4_addr@,
            r.ipv6_addr@ == ipv6_addr@,
            r.hostname@ == hostname@,
    {
        Thing { serial, mac_addr, ipv4_addr, ipv6_addr, hostname }
    }
}

/// A stored setting: a key and its value as text.
#[derive(Clone, Debug, PartialEq, Eq)]
pub struct Config {
    pub key: String,
    pub value: String,
}

/// A user account as stored.
#[derive(Clone, Debug)]
pub struct UserDbo {
    pub id: i64,
    pub username: String,
    pub password: String,
    pub salt: Vec<u8>,
}

/// A user account with its roles and permissions.
#[derive(Clone, Debug)]
pub struct User {
    pub id: i64,
    pub username: String,
    pub password: String,
    pub salt: Vec<u8>,
    pub roles: Vec<String>,
    pub roles_ids: Vec<i64>,
    pub permissions: Vec<String>,
}

/// A role as stored: its permissions as comma-separated text.
#[derive(Debug)]
pub struct RoleDbo {
    pub id: i64,
    pub name: String,
    pub permissions: String,
}

/// A usage-profile URL that the identification service suggests for a device.
#[derive(Debug)]
pub struct GuessDto {
    pub mud_url: String,
    pub model_name: Option<String>,
    pub manufacturer_name: Option<String>,
}

/// A request to create a user.
pub struct MgmCreateUserDto {
    pub username: String,
    pub password: String,
    pub roles_ids: Vec<i64>,
}

/// A request to change a user's name and, optionally, password.
pub struct MgmUpdateUserBasicDto {
    pub username: String,
    pub password: Option<String>,
}

/// A role: its identifier and its name.
#[derive(Clone, Debug, PartialEq, Eq)]
pub struct Role {
    pub id: i64,
    pub name: String,
}

/// The pieces of `s` between commas, in order; text without a comma is one
/// piece, and empty text one empty piece.
pub open spec fn comma_pieces(s: Seq<char>) -> Seq<Seq<char>>
    decreases s.len(),
{
    if s.len() == 0 {
        seq![Seq::empty()]
    } else {
        let before = comma_pieces(s.drop_last());
        if s.last() == ',' {
            before.push(Seq::empty())
        } else {
            before.update(before.len() - 1, before.last().push(s.last()))
        }
    }
}

proof fn lemma_comma_pieces_nonempty(s: Seq<char>)
    ensures
        comma_pieces(s).len() >= 1,
    decreases s.len(),
{
    if s.len() > 0 {
        lemma_comma_pieces_nonempty(s.drop_last());
    }
}

/// The texts of `pieces`.
pub open spec fn texts(pieces: Seq<String>) -> Seq<Seq<char>> {
    pieces.map_values(|p: String| p@)
}

fn split_commas(s: &str) -> (r: Vec<String>)
    ensures
        texts(r@) == comma_pieces(s@),
{
    let n = s.unicode_len();
    let mut r: Vec<String> = Vec::new();
    let mut start: usize = 0;
    let mut i: usize = 0;
    assert(s@.subrange(0, 0) =~= Seq::<char>::empty());
    assert(texts(r@) =~= Seq::<Seq<char>>::empty());
    assert(texts(r@).push(s@.subrange(0, 0)) =~= seq![Seq::<char>::empty()]);
    while i < n
        invariant
            n == s@.len(),
            0 <= start <= i <= n,
            texts(r@).push(s@.subrange(start as int, i as int)) == comma_pieces(
                s@.subrange(0, i as int),
            ),
        decreases n - i,
    {
        let c = s.get_char(i);
        let ghost before = texts(r@);
        proof {
            assert(s@.subrange(0, i as int + 1).drop_last() =~= s@.subrange(0, i as int));
            assert(s@.subrange(0, i as int + 1).last() == c);
            lemma_comma_pieces_nonempty(s@.subrange(0, i as int));
        }
        if c == ',' {
            r.push(String::from_str(s.substring_char(start, i)));
            assert(texts(r@) =~= before.push(s@.subrange(start as int, i as int)));
            start = i + 1;
            assert(s@.subrange(start as int, i as int + 1) =~= Seq::<char>::empty());
            assert(texts(r@).push(s@.subrange(start as int, i as int + 1)) =~= texts(r@).push(
                Seq::empty(),
            ));
        } else {
            assert(s@.subrange(start as int, i as int + 1) =~= s@.subrange(start as int, i as int).push(
                c,
            ));
            assert(texts(r@).push(s@.subrange(start as int, i as int + 1)) =~= before.push(
                s@.subrange(start as int, i as int),
            ).update(before.len() as int, s@.subrange(start as int, i as int).push(c)));
        }
        i += 1;
    }
    let ghost before = texts(r@);
    r.push(String::from_str(s.substring_char(start, n)));
    assert(texts(r@) =~= before.push(s@.subrange(start as int, n as int)));
    assert(s@.subrange(0, n as int) =~= s@);
    r
}

/// Whether `c` is an ASCII decimal digit.
pub open spec fn is_digit(c: char) -> bool {
    '0' <= c <= '9'
}

/// The value of the decimal digits `s`.
pub open spec fn digits_value(s: Seq<char>) -> int
    decreases s.len(),
{
    if s.len() == 0 {
        0
    } else {
        digits_value(s.drop_last()) * 10 + (s.last() as int - '0' as int)
    }
}

/// The integer that `s` spells: an optional `+` or `-`, then one or more
/// decimal digits.
pub open spec fn integer_of(s: Seq<char>) -> Option<int> {
    let signed = s.len() > 0 && (s[0] == '-' || s[0] == '+');
    let body = if signed {
        s.drop_first()
    } else {
        s
    };
    if body.len() > 0 && forall|k: int| 0 <= k < body.len() ==> is_digit(#[trigger] body[k]) {
        Some(
            if s[0] == '-' {
                -digits_value(body)
            } else {
                digits_value(body)
            },
        )
    } else {
        None
    }
}

/// The `i64` that `s` spells, where it spells one in range.
pub open spec fn i64_of(s: Seq<char>) -> Option<i64> {
    match integer_of(s) {
        Some(v) => if i64::MIN <= v <= i64::MAX {
            Some(v as i64)
        } else {
            None
        },
        None => None,
    }
}

/// Relies on `<i64 as FromStr>::from_str`: an optional `+` or `-` followed by
/// decimal digits only, whose value fits; anything else is an error.
#[verifier::external_body]
fn parse_i64(s: &str) -> (r: Option<i64>)
    ensures
        r == i64_of(s@),
{
    s.parse::<i64>().ok()
}

/// Pairs comma-separated role identifiers with comma-separated role names,
/// position by position, up to the first identifier that is missing or no
/// integer, or the first missing name.
pub fn get_roles(ids: &str, names: &str) -> (r: Vec<Role>)
    ensures
        ({
            let id_pieces = comma_pieces(ids@);
            let name_pieces = comma_pieces(names@);
            &&& r@.len() <= id_pieces.len()
            &&& r@.len() <= name_pieces.len()
            &&& forall|k: int|
                0 <= k < r@.len() ==> i64_of(id_pieces[k]) == Some((#[trigger] r@[k]).id)
                    && r@[k].name@ == name_pieces[k]
            &&& r@.len() == id_pieces.len() || i64_of(id_pieces[r@.len() as int]) is None
                || r@.len() == name_pieces.len()
        }),
{
    let id_pieces = split_commas(ids);
    let name_pieces = split_commas(names);
    let ghost idv = texts(id_pieces@);
    let ghost namev = texts(name_pieces@);
    let mut res: Vec<Role> = Vec::new();
    let mut k: usize = 0;
    loop
        invariant
            k == res@.len(),
            k <= id_pieces@.len(),
            k <= name_pieces@.len(),
            idv == texts(id_pieces@),
            namev == texts(name_pieces@),
            forall|j: int|
                0 <= j < res@.len() ==> i64_of(idv[j]) == Some((#[trigger] res@[j]).id)
                    && res@[j].name@ == namev[j],
        ensures
            k == res@.len(),
            k <= id_pieces@.len(),
            k <= name_pieces@.len(),
            forall|j: int|
                0 <= j < res@.len() ==> i64_of(idv[j]) == Some((#[trigger] res@[j]).id)
                    && res@[j].name@ == namev[j],
            k == id_pieces@.len() || i64_of(idv[k as int]) is None || k == name_pieces@.len(),
        decreases id_pieces@.len() - k,
    {
        if k >= id_pieces.len() {
            break;
        }
        let id = match parse_i64(id_pieces[k].as_str()) {
            Some(id) => id,
            None => break,
        };
        if k >= name_pieces.len() {
            break;
        }
        res.push(Role { id, name: name_pieces[k].clone() });
        k += 1;
    }
    res
}

} // verus!
