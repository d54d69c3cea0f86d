//! Strongly-typed identifiers for rooms and players, and their generators.

use vstd::prelude::*;
use vstd::string::StrSliceExecFns;

verus! {

/// Opaque, server-generated identifier for a player within a room.
#[derive(Debug, Hash)]
pub struct PlayerId(pub String);

/// Short, human-shareable room code (e.g. "K7M-Q2P").
#[derive(Debug, Hash)]
pub struct RoomCode(pub String);

impl View for PlayerId {
    type V = Seq<char>;

    open spec fn view(&self) -> Seq<char> {
        self.0@
    }
}

impl View for RoomCode {
    type V = Seq<char>;

    open spec fn view(&self) -> Seq<char> {
        self.0@
    }
}

impl Clone for PlayerId {
    fn clone(&self) -> (r: Self)
        ensures
            r@ == self@,
    {
        PlayerId(self.0.clone())
    }
}

impl Clone for RoomCode {
    fn clone(&self) -> (r: Self)
        ensures
            r@ == self@,
    {
        RoomCode(self.0.clone())
    }
}

impl PartialEq for PlayerId {
    fn eq(&self, other: &Self) -> (r: bool) {
        self.0 == other.0
    }
}

impl Eq for PlayerId {}

impl vstd::std_specs::cmp::PartialEqSpecImpl for PlayerId {
    open spec fn obeys_eq_spec() -> bool {
        true
    }

    open spec fn eq_spec(&self, other: &Self) -> bool {
        self@ == other@
    }
}

impl PartialEq for RoomCode {
    fn eq(&self, other: &Self) -> (r: bool) {
        self.0 == other.0
    }
}

impl Eq for RoomCode {}

impl vstd::std_specs::cmp::PartialEqSpecImpl for RoomCode {
    open spec fn obeys_eq_spec() -> bool {
        true
    }

    open spec fn eq_spec(&self, other: &Self) -> bool {
        self@ == other@
    }
}

/// Unambiguous alphabet: no 0/O, 1/I/L to ease verbal sharing.
pub const CODE_ALPHABET: &'static str = "ABCDEFGHJKMNPQRSTUVWXYZ23456789";

/// Number of characters in a generated room code.
pub const CODE_LEN: usize = 6;

/// The characters a room code may contain, in alphabet order.
pub open spec fn code_alphabet() -> Seq<char> {
    seq![
        'A', 'B', 'C', 'D', 'E', 'F', 'G', 'H', 'J', 'K', 'M', 'N', 'P', 'Q', 'R', 'S',
        'T', 'U', 'V', 'W', 'X', 'Y', 'Z', '2', '3', '4', '5', '6', '7', '8', '9',
    ]
}

/// A well-formed room code: `CODE_LEN` characters drawn from the alphabet.
pub open spec fn is_room_code(s: Seq<char>) -> bool {
    &&& s.len() == CODE_LEN
    &&& forall|i: int| 0 <= i < s.len() ==> code_alphabet().contains(#[trigger] s[i])
}

/// Lower-case hexadecimal digit for a nibble value `0..16`.
pub open spec fn hex_digit(d: int) -> char {
    if d < 10 {
        (48 + d) as char
    } else {
        (87 + d) as char
    }
}

/// Lower-case hex encoding: two digits per byte, high nibble first.
pub open spec fn hex_encode(bytes: Seq<u8>) -> Seq<char> {
    Seq::new(
        2 * bytes.len(),
        |i: int|
            if i % 2 == 0 {
                hex_digit(bytes[i / 2] as int / 16)
            } else {
                hex_digit(bytes[i / 2] as int % 16)
            },
    )
}

/// An opaque 256-bit token as issued by [`generate_token`].
pub open spec fn is_token(s: Seq<char>) -> bool {
    exists|bytes: Seq<u8>| bytes.len() == 32 && s == hex_encode(bytes)
}

/// Uniform index in `0..bound`, from `rand::random_range` on the thread RNG.
/// Promised: the result lies in the range. Which value comes back is chance.
#[verifier::external_body]
fn random_index(bound: usize) -> (i: usize)
    requires
        bound > 0,
    ensures
        i < bound,
{
    rand::random_range(0..bound)
}

/// 32 random bytes from `rand::random` on the thread RNG. Nothing is promised
/// of their values.
#[verifier::external_body]
fn random_bytes() -> [u8; 32] {
    rand::random()
}

/// `String::push`: appends one character.
#[verifier::external_body]
pub(crate) fn push_char(s: &mut String, c: char)
    ensures
        final(s)@ == old(s)@.push(c),
{
    s.push(c)
}

fn hex_digit_char(d: u8) -> (c: char)
    requires
        d < 16,
    ensures
        c == hex_digit(d as int),
{
    if d < 10 {
        (48u8 + d) as char
    } else {
        (87u8 + d) as char
    }
}

/// Lower-case hex encoding of `bytes`.
pub fn hex_lower(bytes: &[u8]) -> (s: String)
    requires
        2 * bytes@.len() <= usize::MAX,
    ensures
        s@ == hex_encode(bytes@),
{
    let mut s = String::new();
    let n = bytes.len();
    let mut i: usize = 0;
    while i < n
        invariant
            n == bytes@.len(),
            i <= n,
            s@.len() == 2 * i,
            forall|j: int| 0 <= j < 2 * i ==> s@[j] == #[trigger] hex_encode(bytes@)[j],
        decreases n - i,
    {
        let b = bytes[i];
        push_char(&mut s, hex_digit_char(b / 16));
        push_char(&mut s, hex_digit_char(b % 16));
        assert(hex_encode(bytes@)[2 * i as int] == hex_digit((b / 16) as int));
        assert(hex_encode(bytes@)[2 * i + 1] == hex_digit((b % 16) as int));
        i = i + 1;
    }
    assert(s@ =~= hex_encode(bytes@));
    s
}

/// The room code spelled by `idx`, each entry an index into the alphabet.
pub open spec fn code_of_indices(idx: Seq<usize>) -> Seq<char> {
    idx.map_values(|k: usize| code_alphabet()[k as int])
}

/// The room code spelled by `idx`, each entry an index into the alphabet.
pub fn code_from_indices(idx: &[usize]) -> (c: RoomCode)
    requires
        idx@.len() == CODE_LEN,
        forall|i: int| 0 <= i < idx@.len() ==> #[trigger] idx@[i] < 31,
    ensures
        c@ == code_of_indices(idx@),
        is_room_code(c@),
{
    let alphabet: &str = "ABCDEFGHJKMNPQRSTUVWXYZ23456789";
    proof {
        reveal_strlit("ABCDEFGHJKMNPQRSTUVWXYZ23456789");
    }
    assert(alphabet@ =~= code_alphabet());
    let mut s = String::new();
    let mut k: usize = 0;
    while k < idx.len()
        invariant
            alphabet@ == code_alphabet(),
            k <= idx@.len(),
            idx@.len() == CODE_LEN,
            forall|i: int| 0 <= i < idx@.len() ==> #[trigger] idx@[i] < 31,
            s@ == code_of_indices(idx@.take(k as int)),
        decreases idx@.len() - k,
    {
        let c = alphabet.get_char(idx[k]);
        assert(code_alphabet()[idx@[k as int] as int] == c);
        push_char(&mut s, c);
        assert(code_of_indices(idx@.take(k + 1)) =~= code_of_indices(idx@.take(k as int)).push(c));
        k = k + 1;
    }
    assert(idx@.take(idx@.len() as int) =~= idx@);
    assert forall|i: int| 0 <= i < s@.len() implies code_alphabet().contains(#[trigger] s@[i]) by {
        assert(s@[i] == code_alphabet()[idx@[i] as int]);
    }
    RoomCode(s)
}

impl RoomCode {
    /// Generate a random 6-character code from the unambiguous alphabet: six
    /// uniform draws of an alphabet index, spelled by [`code_from_indices`].
    pub fn generate() -> (code: Self)
        ensures
            is_room_code(code@),
            exists|idx: Seq<usize>| idx.len() == CODE_LEN && (forall|i: int| 0 <= i < CODE_LEN ==> #[trigger] idx[i] < 31)
                && code@ == code_of_indices(idx),
    {
        let mut idx: Vec<usize> = Vec::new();
        while idx.len() < CODE_LEN
            invariant
                idx@.len() <= CODE_LEN,
                forall|i: int| 0 <= i < idx@.len() ==> #[trigger] idx@[i] < 31,
            decreases CODE_LEN - idx@.len(),
        {
            idx.push(random_index(31));
        }
        code_from_indices(idx.as_slice())
    }
}

/// Generate a 256-bit opaque token, hex-encoded (used for player/host auth).
pub fn generate_token() -> (t: String)
    ensures
        is_token(t@),
{
    let bytes = random_bytes();
    let s = hex_lower(bytes.as_slice());
    assert(bytes@.len() == 32);
    s
}

} // verus!
