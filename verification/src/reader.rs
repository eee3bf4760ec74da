//! Sequential cursor over a byte slice with typed little-endian reads.
//!
//! Every binary format in this crate is laid out as little-endian
//! fields read at a moving cursor, with absolute seeks driven by
//! 32-bit offsets stored in the data itself.  [`ByteReader`] is that
//! cursor; the spec functions here give the value of each field shape
//! directly in terms of the underlying byte sequence.

use vstd::prelude::*;

use vstd::string::StrSliceExecFns;

use crate::DecodeError;

verus! {

/// Little-endian value of the two bytes at `i`.
pub open spec fn le16_at(d: Seq<u8>, i: int) -> u16
    recommends
        0 <= i,
        i + 2 <= d.len(),
{
    (d[i] + d[i + 1] * 0x100) as u16
}

/// Little-endian value of the four bytes at `i`.
pub open spec fn le32_at(d: Seq<u8>, i: int) -> u32
    recommends
        0 <= i,
        i + 4 <= d.len(),
{
    (d[i] + d[i + 1] * 0x100 + d[i + 2] * 0x1_0000 + d[i + 3] * 0x100_0000) as u32
}

/// The signed value that 32 bits denote in two's complement.
pub open spec fn signed32(x: u32) -> i32 {
    if x < 0x8000_0000 {
        x as i32
    } else {
        (x - 0x1_0000_0000) as i32
    }
}

/// How many loop iterations a stored 32-bit count drives: a count with
/// the sign bit set is negative and drives none.
pub open spec fn loop_count(x: u32) -> int {
    if x < 0x8000_0000 {
        x as int
    } else {
        0
    }
}

/// Where the cursor lands when a stored 32-bit offset is used as an
/// absolute seek target.  A negative offset sign-extends to a huge
/// position, and any position past the end of the data is equivalent
/// to the end itself (every fixed-width read there fails), so the
/// cursor saturates at `len`.
pub open spec fn seek_pos(off: u32, len: int) -> int {
    if off >= 0x8000_0000 || off > len {
        len
    } else {
        off as int
    }
}

/// Sequential reader: a borrowed byte slice and a cursor.
///
/// Reads succeed when the whole field lies inside the data; a failed
/// read returns [`DecodeError::Truncated`] and leaves the cursor where
/// it was.
pub struct ByteReader<'a> {
    pub data: &'a [u8],
    pub pos: usize,
}

impl<'a> ByteReader<'a> {
    /// The cursor never points past the end of the data.
    pub open spec fn wf(&self) -> bool {
        self.pos <= self.data@.len()
    }

    pub fn new(data: &'a [u8]) -> (r: ByteReader<'a>)
        ensures
            r.data@ == data@,
            r.pos == 0,
            r.wf(),
    {
        ByteReader { data, pos: 0 }
    }

    /// Current cursor position.
    pub fn position(&self) -> (r: usize)
        ensures
            r == self.pos,
    {
        self.pos
    }

    /// Absolute seek to a known position, saturating at the end.
    pub fn seek_to(&mut self, p: usize)
        requires
            old(self).wf(),
        ensures
            final(self).data@ == old(self).data@,
            final(self).wf(),
            final(self).pos == if p <= old(self).data@.len() {
                p as int
            } else {
                old(self).data@.len() as int
            },
    {
        if p <= self.data.len() {
            self.pos = p;
        } else {
            self.pos = self.data.len();
        }
    }

    /// Absolute seek driven by a stored 32-bit offset, interpreted as
    /// a signed value: a negative offset sign-extends past any real
    /// data length, so the cursor saturates at the end.
    pub fn seek_offset32(&mut self, off: u32)
        requires
            old(self).wf(),
        ensures
            final(self).data@ == old(self).data@,
            final(self).wf(),
            final(self).pos == seek_pos(off, old(self).data@.len() as int),
    {
        if off >= 0x8000_0000 {
            self.pos = self.data.len();
        } else if off as usize > self.data.len() {
            self.pos = self.data.len();
        } else {
            self.pos = off as usize;
        }
    }

    pub fn read_u8(&mut self) -> (r: Result<u8, DecodeError>)
        requires
            old(self).wf(),
        ensures
            final(self).data@ == old(self).data@,
            final(self).wf(),
            old(self).pos + 1 <= old(self).data@.len() ==> r == Ok::<u8, DecodeError>(
                old(self).data@[old(self).pos as int],
            ) && final(self).pos == old(self).pos + 1,
            old(self).pos + 1 > old(self).data@.len() ==> r == Err::<u8, DecodeError>(
                DecodeError::Truncated,
            ) && final(self).pos == old(self).pos,
    {
        if 1 <= self.data.len() - self.pos {
            let b = self.data[self.pos];
            self.pos = self.pos + 1;
            Ok(b)
        } else {
            Err(DecodeError::Truncated)
        }
    }

    pub fn read_u16(&mut self) -> (r: Result<u16, DecodeError>)
        requires
            old(self).wf(),
        ensures
            final(self).data@ == old(self).data@,
            final(self).wf(),
            old(self).pos + 2 <= old(self).data@.len() ==> r == Ok::<u16, DecodeError>(
                le16_at(old(self).data@, old(self).pos as int),
            ) && final(self).pos == old(self).pos + 2,
            old(self).pos + 2 > old(self).data@.len() ==> r == Err::<u16, DecodeError>(
                DecodeError::Truncated,
            ) && final(self).pos == old(self).pos,
    {
        if 2 <= self.data.len() - self.pos {
            let b0 = self.data[self.pos] as u16;
            let b1 = self.data[self.pos + 1] as u16;
            self.pos = self.pos + 2;
            Ok(b0 + b1 * 0x100)
        } else {
            Err(DecodeError::Truncated)
        }
    }

    pub fn read_u32(&mut self) -> (r: Result<u32, DecodeError>)
        requires
            old(self).wf(),
        ensures
            final(self).data@ == old(self).data@,
            final(self).wf(),
            old(self).pos + 4 <= old(self).data@.len() ==> r == Ok::<u32, DecodeError>(
                le32_at(old(self).data@, old(self).pos as int),
            ) && final(self).pos == old(self).pos + 4,
            old(self).pos + 4 > old(self).data@.len() ==> r == Err::<u32, DecodeError>(
                DecodeError::Truncated,
            ) && final(self).pos == old(self).pos,
    {
        if 4 <= self.data.len() - self.pos {
            let b0 = self.data[self.pos] as u32;
            let b1 = self.data[self.pos + 1] as u32;
            let b2 = self.data[self.pos + 2] as u32;
            let b3 = self.data[self.pos + 3] as u32;
            self.pos = self.pos + 4;
            Ok(b0 + b1 * 0x100 + b2 * 0x1_0000 + b3 * 0x100_0000)
        } else {
            Err(DecodeError::Truncated)
        }
    }

    /// Reads exactly `n` bytes.
    pub fn read_bytes(&mut self, n: usize) -> (r: Result<Vec<u8>, DecodeError>)
        requires
            old(self).wf(),
        ensures
            final(self).data@ == old(self).data@,
            final(self).wf(),
            old(self).pos + n <= old(self).data@.len() ==> r is Ok && r.unwrap()@ == old(
                self,
            ).data@.subrange(old(self).pos as int, old(self).pos + n) && final(self).pos == old(
                self,
            ).pos + n,
            old(self).pos + n > old(self).data@.len() ==> r == Err::<Vec<u8>, DecodeError>(
                DecodeError::Truncated,
            ) && final(self).pos == old(self).pos,
    {
        if n <= self.data.len() - self.pos {
            let mut out: Vec<u8> = Vec::new();
            let mut i: usize = 0;
            while i < n
                invariant
                    self.wf(),
                    i <= n,
                    self.pos + n <= self.data@.len(),
                    self.data@.len() <= usize::MAX,
                    out@ == self.data@.subrange(self.pos as int, self.pos + i),
                decreases n - i,
            {
                out.push(self.data[self.pos + i]);
                i = i + 1;
                proof {
                    assert(out@ =~= self.data@.subrange(self.pos as int, self.pos + i));
                }
            }
            self.pos = self.pos + n;
            Ok(out)
        } else {
            Err(DecodeError::Truncated)
        }
    }

    /// Signed 32-bit little-endian read.
    pub fn read_i32(&mut self) -> (r: Result<i32, DecodeError>)
        requires
            old(self).wf(),
        ensures
            final(self).data@ == old(self).data@,
            final(self).wf(),
            old(self).pos + 4 <= old(self).data@.len() ==> r == Ok::<i32, DecodeError>(
                signed32(le32_at(old(self).data@, old(self).pos as int)),
            ) && final(self).pos == old(self).pos + 4,
            old(self).pos + 4 > old(self).data@.len() ==> r == Err::<i32, DecodeError>(
                DecodeError::Truncated,
            ) && final(self).pos == old(self).pos,
    {
        let x = match self.read_u32() {
            Ok(v) => v,
            Err(e) => {
                return Err(e);
            },
        };
        if x < 0x8000_0000 {
            Ok(x as i32)
        } else {
            Ok(-1 - ((0xFFFF_FFFFu32 - x) as i32))
        }
    }
}

/// Relies on `String::from_utf8`: it succeeds exactly on valid UTF-8
/// input and decodes the bytes to the characters they encode.
#[verifier::external_body]
fn string_from_utf8(bytes: Vec<u8>) -> (r: Option<String>)
    ensures
        r is Some <==> vstd::utf8::valid_utf8(bytes@),
        r is Some ==> r.unwrap()@ == vstd::utf8::decode_utf8(bytes@),
{
    String::from_utf8(bytes).ok()
}

/// What reading an `l`-byte text field at `i` yields: the decoded
/// characters if the bytes are valid UTF-8.
pub open spec fn text_at(d: Seq<u8>, i: int, l: int) -> Option<Seq<char>>
    recommends
        0 <= i,
        i + l <= d.len(),
{
    if vstd::utf8::valid_utf8(d.subrange(i, i + l)) {
        Some(vstd::utf8::decode_utf8(d.subrange(i, i + l)))
    } else {
        None
    }
}

/// Reads `l` bytes and interprets them as UTF-8 text.
pub fn read_string(r: &mut ByteReader, l: u8) -> (res: Result<String, DecodeError>)
    requires
        old(r).wf(),
    ensures
        final(r).data@ == old(r).data@,
        final(r).wf(),
        old(r).pos + l > old(r).data@.len() ==> res == Err::<String, DecodeError>(
            DecodeError::Truncated,
        ) && final(r).pos == old(r).pos,
        old(r).pos + l <= old(r).data@.len() ==> final(r).pos == old(r).pos + l && (match text_at(
            old(r).data@,
            old(r).pos as int,
            l as int,
        ) {
            Some(t) => res is Ok && res.unwrap()@ == t,
            None => res == Err::<String, DecodeError>(DecodeError::InvalidText),
        }),
{
    let bytes = match r.read_bytes(l as usize) {
        Ok(b) => b,
        Err(e) => {
            return Err(e);
        },
    };
    match string_from_utf8(bytes) {
        Some(s) => Ok(s),
        None => Err(DecodeError::InvalidText),
    }
}

/// The characters with any trailing run of NUL characters removed.
pub open spec fn trim_nuls(s: Seq<char>) -> Seq<char>
    decreases s.len(),
{
    if s.len() > 0 && s.last() == '\0' {
        trim_nuls(s.drop_last())
    } else {
        s
    }
}

/// `trim_nuls` keeps exactly the prefix in front of the trailing NUL run.
proof fn lemma_trim_nuls_subrange(s: Seq<char>, k: int)
    requires
        0 <= k <= s.len(),
        forall|j: int| k <= j < s.len() ==> s[j] == '\0',
        k == 0 || s[k - 1] != '\0',
    ensures
        trim_nuls(s) == s.subrange(0, k),
    decreases s.len(),
{
    if s.len() == k {
        assert(s.subrange(0, k) =~= s);
    } else {
        assert(s.last() == '\0');
        lemma_trim_nuls_subrange(s.drop_last(), k);
        assert(s.drop_last().subrange(0, k) =~= s.subrange(0, k));
    }
}

/// Removes the trailing run of NUL characters.
pub fn trim_trailing_nuls(s: &String) -> (r: String)
    ensures
        r@ == trim_nuls(s@),
{
    let n = s.as_str().unicode_len();
    let mut keep: usize = n;
    while keep > 0 && s.as_str().get_char(keep - 1) == '\0'
        invariant
            keep <= n,
            n == s@.len(),
            forall|j: int| keep <= j < s@.len() ==> s@[j] == '\0',
        decreases keep,
    {
        keep = keep - 1;
    }
    proof {
        lemma_trim_nuls_subrange(s@, keep as int);
    }
    let t = s.as_str().substring_char(0, keep);
    t.to_owned()
}

/// Reads an `l`-byte fixed-size text field and strips the trailing
/// NUL padding: the shared helper for every texture-name field.
pub fn read_padded_string(r: &mut ByteReader, l: u8) -> (res: Result<String, DecodeError>)
    requires
        old(r).wf(),
    ensures
        final(r).data@ == old(r).data@,
        final(r).wf(),
        old(r).pos + l > old(r).data@.len() ==> res == Err::<String, DecodeError>(
            DecodeError::Truncated,
        ) && final(r).pos == old(r).pos,
        old(r).pos + l <= old(r).data@.len() ==> final(r).pos == old(r).pos + l && (match text_at(
            old(r).data@,
            old(r).pos as int,
            l as int,
        ) {
            Some(t) => res is Ok && res.unwrap()@ == trim_nuls(t),
            None => res == Err::<String, DecodeError>(DecodeError::InvalidText),
        }),
{
    let s = match read_string(r, l) {
        Ok(s) => s,
        Err(e) => {
            return Err(e);
        },
    };
    Ok(trim_trailing_nuls(&s))
}

} // verus!
