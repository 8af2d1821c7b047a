//! The state of one player as every client sees it.
use vstd::prelude::*;
use vstd::string::StringSliceAdditionalSpecFns;
use vstd::utf8::{decode_utf8, encode_utf8, encode_utf8_decode_utf8, encode_utf8_valid_utf8, valid_utf8};

verus! {

/// Number of bytes in a player's name field.
pub const NAME_LEN: usize = 16;

/// State of a single player, broadcast to all clients every tick.
/// The name is a fixed, NUL-padded UTF-8 field. Position and facing are
/// single-precision values held as their IEEE-754 bit patterns; an angle of
/// 0 faces +X.
#[derive(Debug, Clone, Copy)]
pub struct PlayerState {
    pub id: u8,
    pub name: [u8; 16],
    pub x: u32,
    pub y: u32,
    pub angle: u32,
}

/// The name field for a name whose UTF-8 encoding is `bytes`: its first 16
/// bytes, padded with NUL bytes.
pub open spec fn packed_name(bytes: Seq<u8>) -> Seq<u8> {
    Seq::new(
        NAME_LEN as nat,
        |i: int|
            if i < bytes.len() {
                bytes[i]
            } else {
                0u8
            },
    )
}

/// Index of the first NUL byte of `s`, or its length when there is none.
pub open spec fn first_nul(s: Seq<u8>) -> int
    decreases s.len(),
{
    if s.len() == 0 {
        0
    } else if s[0] == 0 {
        0
    } else {
        1 + first_nul(s.drop_first())
    }
}

/// The bytes of a name field up to its first NUL byte.
pub open spec fn name_prefix(field: Seq<u8>) -> Seq<u8> {
    field.take(first_nul(field))
}

/// The text that a name field reads as: the UTF-8 decoding of the bytes before
/// the first NUL, or `"???"` when those bytes are not valid UTF-8.
pub open spec fn name_text(field: Seq<u8>) -> Seq<char> {
    if valid_utf8(name_prefix(field)) {
        decode_utf8(name_prefix(field))
    } else {
        "???"@
    }
}

/// `first_nul` is the position of the first NUL byte, or the length.
pub proof fn lemma_first_nul(s: Seq<u8>)
    ensures
        0 <= first_nul(s) <= s.len(),
        first_nul(s) < s.len() ==> s[first_nul(s)] == 0,
        forall|i: int| 0 <= i < first_nul(s) ==> s[i] != 0,
    decreases s.len(),
{
    if s.len() > 0 && s[0] != 0 {
        lemma_first_nul(s.drop_first());
        assert forall|i: int| 0 <= i < first_nul(s) implies s[i] != 0 by {
            if i > 0 {
                assert(s[i] == s.drop_first()[i - 1]);
            }
        }
    }
}

/// A name field with no NUL byte among its first `n` bytes and a NUL at `n`
/// (or `n` equal to the length) has its first NUL at `n`.
proof fn lemma_first_nul_at(s: Seq<u8>, n: int)
    requires
        0 <= n <= s.len(),
        forall|i: int| 0 <= i < n ==> s[i] != 0,
        n < s.len() ==> s[n] == 0,
    ensures
        first_nul(s) == n,
{
    lemma_first_nul(s);
}

/// Name round trip: a name whose UTF-8 encoding has at most 16 bytes and no
/// NUL byte reads back from its packed name field unchanged.
pub proof fn lemma_name_roundtrip(name: Seq<char>)
    requires
        encode_utf8(name).len() <= NAME_LEN,
        !encode_utf8(name).contains(0u8),
    ensures
        name_text(packed_name(encode_utf8(name))) == name,
{
    let bytes = encode_utf8(name);
    let field = packed_name(bytes);
    assert forall|i: int| 0 <= i < bytes.len() implies field[i] != 0 by {
        if field[i] == 0 {
            assert(bytes[i] == 0);
            assert(bytes.contains(0u8));
        }
    }
    lemma_first_nul_at(field, bytes.len() as int);
    assert(name_prefix(field) =~= bytes);
    encode_utf8_valid_utf8(name);
    encode_utf8_decode_utf8(name);
}

/// `std::str::from_utf8`: it succeeds exactly when the bytes are valid
/// UTF-8, and the text it then gives is the decoding of those bytes.
#[verifier::external_body]
fn str_from_utf8(bytes: &[u8]) -> (res: Option<&str>)
    ensures
        res is Some <==> valid_utf8(bytes@),
        res matches Some(s) ==> s@ == decode_utf8(bytes@),
{
    std::str::from_utf8(bytes).ok()
}

impl PlayerState {
    /// A player at `(x, y)` facing angle 0, whose name field holds the first
    /// 16 bytes of `name`, NUL-padded.
    pub fn new(id: u8, name: &str, x: u32, y: u32) -> (p: PlayerState)
        ensures
            p.id == id,
            p.name@ == packed_name(name.spec_bytes()),
            p.x == x,
            p.y == y,
            p.angle == 0,
    {
        let mut name_bytes = [0u8; 16];
        let bytes = name.as_bytes();
        let len = if bytes.len() < NAME_LEN {
            bytes.len()
        } else {
            NAME_LEN
        };
        for i in 0..len
            invariant
                len <= bytes@.len(),
                len <= NAME_LEN,
                bytes@ == name.spec_bytes(),
                forall|j: int| 0 <= j < i ==> name_bytes@[j] == bytes@[j],
                forall|j: int| i <= j < NAME_LEN ==> name_bytes@[j] == 0,
        {
            name_bytes[i] = bytes[i];
        }
        let p = PlayerState { id, name: name_bytes, x, y, angle: 0 };
        assert(p.name@ =~= packed_name(name.spec_bytes()));
        p
    }

    /// The player's name: the bytes before the first NUL, decoded as UTF-8,
    /// or `"???"` when they are not valid UTF-8.
    pub fn name_str(&self) -> (s: &str)
        ensures
            s@ == name_text(self.name@),
    {
        let mut end: usize = 0;
        while end < NAME_LEN && self.name[end] != 0
            invariant
                end <= NAME_LEN,
                forall|i: int| 0 <= i < end ==> self.name@[i] != 0,
            decreases NAME_LEN - end,
        {
            end += 1;
        }
        proof {
            lemma_first_nul_at(self.name@, end as int);
        }
        let prefix = vstd::slice::slice_subrange(self.name.as_slice(), 0, end);
        assert(prefix@ =~= name_prefix(self.name@));
        match str_from_utf8(prefix) {
            Some(s) => s,
            None => "???",
        }
    }
}

} // verus!
