//! The row codec: one record (`id`, `username`, `email`) and its
//! fixed-width serialized form of `ROW_SIZE` bytes — the id as a
//! little-endian `u32`, then the two zero-padded byte fields.

use vstd::prelude::*;
use vstd::string::StringSliceAdditionalSpecFns;
use crate::layout::{EMAIL_OFFSET, EMAIL_SIZE, ID_OFFSET, ROW_SIZE, USERNAME_OFFSET, USERNAME_SIZE};
use crate::text::{append_bytes, append_lit, dec_rep, nul_trim, push_u64_decimal, take_until_nul};
use crate::util::{le32, le32_bytes, lemma_le32_roundtrip, read_bytes_at, read_u32_at, write_bytes_at, write_u32_at};

verus! {

/// The mathematical content of one row: the key and the two padded
/// byte fields at their stored width.
#[verifier::ext_equal]
pub ghost struct RowView {
    pub id: u32,
    pub username: Seq<u8>,
    pub email: Seq<u8>,
}

impl RowView {
    /// Both byte fields have exactly their stored width.
    pub open spec fn wf(self) -> bool {
        self.username.len() == USERNAME_SIZE && self.email.len() == EMAIL_SIZE
    }

    /// The serialized form: `ROW_SIZE` bytes.
    pub open spec fn to_bytes(self) -> Seq<u8> {
        le32_bytes(self.id) + self.username + self.email
    }
}

/// The row a buffer of `ROW_SIZE` bytes holds.
pub open spec fn row_of_bytes(s: Seq<u8>) -> RowView {
    RowView {
        id: le32(s.subrange(ID_OFFSET as int, USERNAME_OFFSET as int)),
        username: s.subrange(USERNAME_OFFSET as int, EMAIL_OFFSET as int),
        email: s.subrange(EMAIL_OFFSET as int, ROW_SIZE as int),
    }
}

/// One record of the table.
#[derive(Debug)]
pub struct Row {
    pub id: u32,
    pub username: Vec<u8>,
    pub email: Vec<u8>,
}

impl View for Row {
    type V = RowView;

    open spec fn view(&self) -> RowView {
        RowView { id: self.id, username: self.username@, email: self.email@ }
    }
}

impl Row {
    /// Write the serialized form into the first `ROW_SIZE` bytes of
    /// `dest`; bytes past `ROW_SIZE` keep their values.
    pub fn serialize(&self, dest: &mut Vec<u8>)
        requires
            self@.wf(),
            old(dest).len() >= ROW_SIZE,
        ensures
            final(dest)@.len() == old(dest)@.len(),
            final(dest)@.subrange(0, ROW_SIZE as int) =~= self@.to_bytes(),
            forall|i: int|
                ROW_SIZE <= i < final(dest)@.len() ==> final(dest)@[i] == old(dest)@[i],
    {
        write_u32_at(dest, ID_OFFSET, self.id);
        write_bytes_at(dest, USERNAME_OFFSET, &self.username);
        write_bytes_at(dest, EMAIL_OFFSET, &self.email);
        proof {
            let b = self@.to_bytes();
            assert forall|i: int| 0 <= i < ROW_SIZE implies dest@[i] == b[i] by {
                if i < USERNAME_OFFSET {
                    assert(dest@[i] == le32_bytes(self.id)[i - ID_OFFSET]);
                } else if i < EMAIL_OFFSET {
                    assert(dest@[i] == self.username@[i - USERNAME_OFFSET]);
                } else {
                    assert(dest@[i] == self.email@[i - EMAIL_OFFSET]);
                }
            }
        }
    }

    /// Read the row stored in the first `ROW_SIZE` bytes of `src`.
    pub fn deserialize(src: &Vec<u8>) -> (r: Row)
        requires
            src.len() >= ROW_SIZE,
        ensures
            r@ == row_of_bytes(src@.subrange(0, ROW_SIZE as int)),
            r@.wf(),
    {
        let id = read_u32_at(src, ID_OFFSET);
        let username = read_bytes_at(src, USERNAME_OFFSET, USERNAME_SIZE);
        let email = read_bytes_at(src, EMAIL_OFFSET, EMAIL_SIZE);
        let r = Row { id, username, email };
        proof {
            let s = src@.subrange(0, ROW_SIZE as int);
            assert(src@.subrange(ID_OFFSET as int, USERNAME_OFFSET as int) =~= s.subrange(
                ID_OFFSET as int,
                USERNAME_OFFSET as int,
            ));
            assert(r.username@ =~= s.subrange(USERNAME_OFFSET as int, EMAIL_OFFSET as int));
            assert(r.email@ =~= s.subrange(EMAIL_OFFSET as int, ROW_SIZE as int));
        }
        r
    }
}

/// How a row displays: the id in decimal and the two byte fields
/// trimmed at their first NUL byte, as a parenthesized triple.
pub open spec fn render_row(r: RowView) -> Seq<u8> {
    "(".spec_bytes() + dec_rep(r.id as nat) + ", ".spec_bytes() + nul_trim(r.username)
        + ", ".spec_bytes() + nul_trim(r.email) + ")".spec_bytes()
}

impl Row {
    /// The row's displayed form.
    pub fn render(&self) -> (r: Vec<u8>)
        ensures
            r@ == render_row(self@),
    {
        let mut out: Vec<u8> = Vec::new();
        append_lit(&mut out, "(");
        push_u64_decimal(&mut out, self.id as u64);
        append_lit(&mut out, ", ");
        let username = take_until_nul(&self.username);
        append_bytes(&mut out, &username);
        append_lit(&mut out, ", ");
        let email = take_until_nul(&self.email);
        append_bytes(&mut out, &email);
        append_lit(&mut out, ")");
        proof {
            assert(out@ =~= render_row(self@));
        }
        out
    }
}

/// Round trip: deserializing the serialized form of any well-formed row
/// gives the row back — the id exactly, the padded byte fields exactly.
pub proof fn lemma_row_round_trip(r: RowView)
    requires
        r.wf(),
    ensures
        row_of_bytes(r.to_bytes()) == r,
{
    lemma_le32_roundtrip(r.id);
    let b = r.to_bytes();
    assert(b.subrange(ID_OFFSET as int, USERNAME_OFFSET as int) =~= le32_bytes(r.id));
    assert(b.subrange(USERNAME_OFFSET as int, EMAIL_OFFSET as int) =~= r.username);
    assert(b.subrange(EMAIL_OFFSET as int, ROW_SIZE as int) =~= r.email);
    assert(row_of_bytes(b) =~= r);
}

} // verus!
