use vstd::prelude::*;

use crate::order::bytes_eq;

verus! {

/// Number of bytes in an object id: the raw size of a SHA-1 digest.
pub const OID_LEN: usize = 20;

/// The digest that the content hasher assigns to a byte sequence. Left
/// abstract: it is computed by the outside hasher and depends on the
/// bytes alone, so re-hashing identical bytes always yields the same id.
pub uninterp spec fn blob_oid_of(bytes: Seq<u8>) -> Seq<u8>;

/// Relies on git2::Oid::hash_object with the blob object type: it computes
/// the SHA-1 digest of the git blob encoding of the given bytes, a pure
/// function of the bytes alone, and git2::Oid::as_bytes hands out the
/// digest's 20 raw bytes.
#[verifier::external_body]
fn git_blob_digest(bytes: &Vec<u8>) -> (r: Option<Vec<u8>>)
    ensures
        (r matches Some(d) ==> d@ == blob_oid_of(bytes@) && d@.len() == OID_LEN),
{
    match git2::Oid::hash_object(git2::ObjectType::Blob, bytes.as_slice()) {
        Ok(oid) => Some(oid.as_bytes().to_vec()),
        Err(_) => None,
    }
}

/// Hashing is deterministic: identical bytes always receive the same id.
pub proof fn lemma_hash_deterministic(a: Seq<u8>, b: Seq<u8>)
    requires
        a == b,
    ensures
        blob_oid_of(a) == blob_oid_of(b),
{
}

/// A fixed-length content identifier: the sole storage key of the object
/// store. Equal content always yields an equal id.
pub struct ObjectId {
    bytes: Vec<u8>,
}

impl View for ObjectId {
    type V = Seq<u8>;

    closed spec fn view(&self) -> Seq<u8> {
        self.bytes@
    }
}

impl ObjectId {
    /// A well-formed id holds exactly one digest.
    pub open spec fn wf(&self) -> bool {
        self@.len() == OID_LEN
    }

    /// Copies the id.
    pub fn dup(&self) -> (r: ObjectId)
        ensures
            r@ == self@,
    {
        ObjectId { bytes: copy_bytes(&self.bytes) }
    }

    /// Decides equality of two ids.
    pub fn same(&self, other: &ObjectId) -> (r: bool)
        ensures
            r == (self@ == other@),
    {
        bytes_eq(&self.bytes, &other.bytes)
    }

    /// The id's bytes.
    pub fn bytes(&self) -> (r: &Vec<u8>)
        ensures
            r@ == self@,
    {
        &self.bytes
    }

    /// The id rendered as lower-case hexadecimal text.
    pub fn to_hex(&self) -> (s: String)
        ensures
            s@ == hex_of(self@),
    {
        hex_string(&self.bytes)
    }
}

/// Hashes a byte sequence into an object id. Returns nothing only when the
/// outside hasher itself reports a failure.
pub fn digest_bytes(data: &Vec<u8>) -> (r: Option<ObjectId>)
    ensures
        (r matches Some(id) ==> id@ == blob_oid_of(data@) && id.wf()),
{
    match git_blob_digest(data) {
        Some(d) => Some(ObjectId { bytes: d }),
        None => None,
    }
}

/// Copies a byte vector.
pub fn copy_bytes(v: &Vec<u8>) -> (r: Vec<u8>)
    ensures
        r@ == v@,
{
    let mut r: Vec<u8> = Vec::new();
    let mut i: usize = 0;
    while i < v.len()
        invariant
            i <= v@.len(),
            r@ == v@.take(i as int),
        decreases v@.len() - i,
    {
        r.push(v[i]);
        proof {
            assert(v@.take(i + 1) =~= v@.take(i as int).push(v@[i as int]));
        }
        i = i + 1;
    }
    proof {
        assert(v@.take(v@.len() as int) =~= v@);
    }
    r
}

/// The hexadecimal digit for one value below sixteen.
pub open spec fn hex_digit(n: u8) -> char {
    if n == 0 {
        '0'
    } else if n == 1 {
        '1'
    } else if n == 2 {
        '2'
    } else if n == 3 {
        '3'
    } else if n == 4 {
        '4'
    } else if n == 5 {
        '5'
    } else if n == 6 {
        '6'
    } else if n == 7 {
        '7'
    } else if n == 8 {
        '8'
    } else if n == 9 {
        '9'
    } else if n == 10 {
        'a'
    } else if n == 11 {
        'b'
    } else if n == 12 {
        'c'
    } else if n == 13 {
        'd'
    } else if n == 14 {
        'e'
    } else {
        'f'
    }
}

/// The hexadecimal rendering of a byte sequence: two digits per byte,
/// high digit first.
pub open spec fn hex_of(bytes: Seq<u8>) -> Seq<char>
    decreases bytes.len(),
{
    if bytes.len() == 0 {
        Seq::empty()
    } else {
        seq![hex_digit(bytes[0] / 16), hex_digit(bytes[0] % 16)] + hex_of(bytes.drop_first())
    }
}

/// The hexadecimal rendering spends exactly two digits per byte.
pub proof fn lemma_hex_of_len(bytes: Seq<u8>)
    ensures
        hex_of(bytes).len() == 2 * bytes.len(),
    decreases bytes.len(),
{
    if bytes.len() > 0 {
        lemma_hex_of_len(bytes.drop_first());
    }
}

proof fn lemma_hex_of_push(s: Seq<u8>, x: u8)
    ensures
        hex_of(s.push(x)) == hex_of(s) + seq![hex_digit(x / 16), hex_digit(x % 16)],
    decreases s.len(),
{
    let p = s.push(x);
    let d = seq![hex_digit(x / 16), hex_digit(x % 16)];
    if s.len() == 0 {
        assert(p[0] == x);
        assert(p.drop_first() =~= Seq::<u8>::empty());
        assert(hex_of(p.drop_first()) == Seq::<char>::empty());
        assert(hex_of(p) == seq![hex_digit(p[0] / 16), hex_digit(p[0] % 16)] + hex_of(
            p.drop_first(),
        ));
        assert(hex_of(s) == Seq::<char>::empty());
        assert(hex_of(p) =~= hex_of(s) + d);
    } else {
        lemma_hex_of_push(s.drop_first(), x);
        assert(p.drop_first() =~= s.drop_first().push(x));
        assert(p[0] == s[0]);
        assert(hex_of(p) == seq![hex_digit(p[0] / 16), hex_digit(p[0] % 16)] + hex_of(
            p.drop_first(),
        ));
        assert(hex_of(s) == seq![hex_digit(s[0] / 16), hex_digit(s[0] % 16)] + hex_of(
            s.drop_first(),
        ));
        assert(hex_of(p) =~= hex_of(s) + d);
    }
}

fn hex_digit_str(n: u8) -> (r: &'static str)
    requires
        n < 16,
    ensures
        r@ == seq![hex_digit(n)],
{
    proof {
        reveal_strlit("0");
        reveal_strlit("1");
        reveal_strlit("2");
        reveal_strlit("3");
        reveal_strlit("4");
        reveal_strlit("5");
        reveal_strlit("6");
        reveal_strlit("7");
        reveal_strlit("8");
        reveal_strlit("9");
        reveal_strlit("a");
        reveal_strlit("b");
        reveal_strlit("c");
        reveal_strlit("d");
        reveal_strlit("e");
        reveal_strlit("f");
    }
    match n {
        0 => "0",
        1 => "1",
        2 => "2",
        3 => "3",
        4 => "4",
        5 => "5",
        6 => "6",
        7 => "7",
        8 => "8",
        9 => "9",
        10 => "a",
        11 => "b",
        12 => "c",
        13 => "d",
        14 => "e",
        _ => "f",
    }
}

/// Renders a byte vector as lower-case hexadecimal text.
pub fn hex_string(bytes: &Vec<u8>) -> (s: String)
    ensures
        s@ == hex_of(bytes@),
{
    let mut s = String::new();
    let mut i: usize = 0;
    proof {
        assert(bytes@.take(0) =~= Seq::<u8>::empty());
    }
    while i < bytes.len()
        invariant
            i <= bytes@.len(),
            s@ == hex_of(bytes@.take(i as int)),
        decreases bytes@.len() - i,
    {
        let b = bytes[i];
        let hi = b / 16;
        let lo = b % 16;
        proof {
            assert(hi < 16);
            assert(lo < 16);
        }
        vstd::string::StringExecFns::append(&mut s, hex_digit_str(hi));
        vstd::string::StringExecFns::append(&mut s, hex_digit_str(lo));
        proof {
            lemma_hex_of_push(bytes@.take(i as int), bytes@[i as int]);
            assert(bytes@.take(i + 1) =~= bytes@.take(i as int).push(bytes@[i as int]));
        }
        i = i + 1;
    }
    proof {
        assert(bytes@.take(bytes@.len() as int) =~= bytes@);
    }
    s
}

} // verus!
