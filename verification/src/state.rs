//! The two record types and their layout in a slot: fixed-width fields as
//! they are, variable-length fields with their length in front, in the
//! order of declaration, with nothing before, between or after.

use vstd::prelude::*;
use vstd::utf8::{decode_utf8, valid_utf8};

use crate::error::FormanaError;
use crate::wire::{
    copy_range, field, field_end, fits, get_u64, lemma_field_found, lemma_field_written,
    lemma_u64_bytes_round_trip, lemma_u64_round_trip, put_bytes, put_field, put_text, put_u64,
    take_address, take_field, take_text, text_bytes, u64_from_le, u64_le,
};

verus! {

/// A form: the top-level record, owned by its creator.
#[derive(Debug, Clone, PartialEq, Eq)]
pub struct Form {
    /// Address of the account that created the form.
    pub creator: [u8; 32],
    /// The form's identifier, unique among the forms of its creator.
    pub code: String,
    /// Where the form's schema is kept, outside the store.
    pub schema_url: String,
    /// The public key to which submissions are encrypted.
    pub encryption_key: Vec<u8>,
    /// The disambiguation byte of the form's slot address.
    pub bump: u8,
}

/// A submission: a record attached to a form by its author.
#[derive(Debug, Clone, PartialEq, Eq)]
pub struct Submission {
    /// Address of the form's slot.
    pub form: [u8; 32],
    /// Address of the account that submitted.
    pub author: [u8; 32],
    /// When the submission was created, in seconds since the epoch.
    pub timestamp: u64,
    /// Where the submitted content is kept, outside the store.
    pub content_url: String,
    /// The content's key, wrapped for the form's encryption key.
    pub symmetric_key: Vec<u8>,
    /// The disambiguation byte of the submission's slot address.
    pub bump: u8,
}

/// What a form holds, as mathematical values.
pub struct FormRecord {
    pub creator: Seq<u8>,
    pub code: Seq<char>,
    pub schema_url: Seq<char>,
    pub encryption_key: Seq<u8>,
    pub bump: u8,
}

/// What a submission holds, as mathematical values.
pub struct SubmissionRecord {
    pub form: Seq<u8>,
    pub author: Seq<u8>,
    pub timestamp: u64,
    pub content_url: Seq<char>,
    pub symmetric_key: Seq<u8>,
    pub bump: u8,
}

impl FormRecord {
    /// A form is valid when its creator is an address and the length of each
    /// variable-length field can stand in the four bytes in front of it.
    pub open spec fn wf(self) -> bool {
        &&& self.creator.len() == 32
        &&& fits(text_bytes(self.code))
        &&& fits(text_bytes(self.schema_url))
        &&& fits(self.encryption_key)
    }

    /// The bytes of the form in its slot.
    pub open spec fn encode(self) -> Seq<u8> {
        self.creator + field(text_bytes(self.code)) + field(text_bytes(self.schema_url)) + field(
            self.encryption_key,
        ) + seq![self.bump]
    }
}

impl SubmissionRecord {
    /// A submission is valid when form and author are addresses and the
    /// length of each variable-length field can stand in the four bytes in
    /// front of it.
    pub open spec fn wf(self) -> bool {
        &&& self.form.len() == 32
        &&& self.author.len() == 32
        &&& fits(text_bytes(self.content_url))
        &&& fits(self.symmetric_key)
    }

    /// The bytes of the submission in its slot.
    pub open spec fn encode(self) -> Seq<u8> {
        self.form + self.author + u64_le(self.timestamp) + field(text_bytes(self.content_url))
            + field(self.symmetric_key) + seq![self.bump]
    }
}

impl View for Form {
    type V = FormRecord;

    open spec fn view(&self) -> FormRecord {
        FormRecord {
            creator: self.creator@,
            code: self.code@,
            schema_url: self.schema_url@,
            encryption_key: self.encryption_key@,
            bump: self.bump,
        }
    }
}

impl View for Submission {
    type V = SubmissionRecord;

    open spec fn view(&self) -> SubmissionRecord {
        SubmissionRecord {
            form: self.form@,
            author: self.author@,
            timestamp: self.timestamp,
            content_url: self.content_url@,
            symmetric_key: self.symmetric_key@,
            bump: self.bump,
        }
    }
}

/// The valid form that `s` is the encoding of, if it is that of any: what
/// reading `s` field by field yields.
pub closed spec fn parse_form(s: Seq<u8>) -> Option<FormRecord> {
    if s.len() < 32 {
        None
    } else {
        match field_end(s, 32) {
            Some(e1) => match field_end(s, e1) {
                Some(e2) => match field_end(s, e2) {
                    Some(e3) => if e3 + 1 == s.len() && valid_utf8(s.subrange(36, e1))
                        && valid_utf8(s.subrange(e1 + 4, e2)) {
                        Some(
                            FormRecord {
                                creator: s.subrange(0, 32),
                                code: decode_utf8(s.subrange(36, e1)),
                                schema_url: decode_utf8(s.subrange(e1 + 4, e2)),
                                encryption_key: s.subrange(e2 + 4, e3),
                                bump: s[e3],
                            },
                        )
                    } else {
                        None
                    },
                    None => None,
                },
                None => None,
            },
            None => None,
        }
    }
}

/// The valid submission that `s` is the encoding of, if it is that of any:
/// what reading `s` field by field yields.
pub closed spec fn parse_submission(s: Seq<u8>) -> Option<SubmissionRecord> {
    if s.len() < 72 {
        None
    } else {
        match field_end(s, 72) {
            Some(e1) => match field_end(s, e1) {
                Some(e2) => if e2 + 1 == s.len() && valid_utf8(s.subrange(76, e1)) {
                    Some(
                        SubmissionRecord {
                            form: s.subrange(0, 32),
                            author: s.subrange(32, 64),
                            timestamp: u64_from_le(s.subrange(64, 72)),
                            content_url: decode_utf8(s.subrange(76, e1)),
                            symmetric_key: s.subrange(e1 + 4, e2),
                            bump: s[e2],
                        },
                    )
                } else {
                    None
                },
                None => None,
            },
            None => None,
        }
    }
}

/// What is read as a form is a valid form, and the bytes read are its encoding.
pub proof fn lemma_parse_form_sound(s: Seq<u8>)
    requires
        parse_form(s) is Some,
    ensures
        parse_form(s)->0.wf(),
        parse_form(s)->0.encode() == s,
{
    let r = parse_form(s)->0;
    let e1 = field_end(s, 32)->0;
    let e2 = field_end(s, e1)->0;
    let e3 = field_end(s, e2)->0;
    lemma_field_found(s, 32);
    lemma_field_found(s, e1);
    lemma_field_found(s, e2);
    vstd::utf8::decode_utf8_encode_utf8(s.subrange(36, e1));
    vstd::utf8::decode_utf8_encode_utf8(s.subrange(e1 + 4, e2));
    assert(s =~= s.subrange(0, 32) + s.skip(32));
    assert(s.skip(e3) =~= seq![s[e3]]);
    assert(r.encode() =~= s);
}

/// The encoding of a valid form decodes to that form.
pub proof fn lemma_form_round_trip(r: FormRecord)
    requires
        r.wf(),
    ensures
        parse_form(r.encode()) == Some(r),
{
    let s = r.encode();
    let u1 = text_bytes(r.code);
    let u2 = text_bytes(r.schema_url);
    let k = r.encryption_key;
    let last = seq![r.bump];
    assert(s.skip(32) =~= field(u1) + (field(u2) + field(k) + last));
    lemma_field_written(s, 32, u1, field(u2) + field(k) + last);
    let e1: int = 36 + u1.len() as int;
    assert(s.skip(e1) =~= field(u2) + (field(k) + last));
    lemma_field_written(s, e1, u2, field(k) + last);
    let e2: int = e1 + 4 + u2.len() as int;
    lemma_field_written(s, e2, k, last);
    let e3: int = e2 + 4 + k.len() as int;
    vstd::utf8::encode_utf8_valid_utf8(r.code);
    vstd::utf8::encode_utf8_valid_utf8(r.schema_url);
    vstd::utf8::encode_utf8_decode_utf8(r.code);
    vstd::utf8::encode_utf8_decode_utf8(r.schema_url);
    assert(s.subrange(0, 32) =~= r.creator);
    assert(s.skip(e3)[0] == r.bump);
}

/// What is read as a submission is a valid submission, and the bytes read
/// are its encoding.
pub proof fn lemma_parse_submission_sound(s: Seq<u8>)
    requires
        parse_submission(s) is Some,
    ensures
        parse_submission(s)->0.wf(),
        parse_submission(s)->0.encode() == s,
{
    let r = parse_submission(s)->0;
    let e1 = field_end(s, 72)->0;
    let e2 = field_end(s, e1)->0;
    lemma_field_found(s, 72);
    lemma_field_found(s, e1);
    vstd::utf8::decode_utf8_encode_utf8(s.subrange(76, e1));
    lemma_u64_bytes_round_trip(s.subrange(64, 72));
    assert(s =~= s.subrange(0, 32) + s.subrange(32, 64) + s.subrange(64, 72) + s.skip(72));
    assert(s.skip(e2) =~= seq![s[e2]]);
    assert(r.encode() =~= s);
}

/// The encoding of a valid submission decodes to that
/// submission.
pub proof fn lemma_submission_round_trip(r: SubmissionRecord)
    requires
        r.wf(),
    ensures
        parse_submission(r.encode()) == Some(r),
{
    let s = r.encode();
    let u1 = text_bytes(r.content_url);
    let k = r.symmetric_key;
    let last = seq![r.bump];
    lemma_u64_round_trip(r.timestamp);
    assert(s.skip(72) =~= field(u1) + (field(k) + last));
    lemma_field_written(s, 72, u1, field(k) + last);
    let e1: int = 76 + u1.len() as int;
    lemma_field_written(s, e1, k, last);
    let e2: int = e1 + 4 + k.len() as int;
    vstd::utf8::encode_utf8_valid_utf8(r.content_url);
    vstd::utf8::encode_utf8_decode_utf8(r.content_url);
    assert(s.subrange(0, 32) =~= r.form);
    assert(s.subrange(32, 64) =~= r.author);
    assert(s.subrange(64, 72) =~= u64_le(r.timestamp));
    assert(s.skip(e2)[0] == r.bump);
}

/// The size computed from the variable-length fields of a
/// form is the length of the form's encoding, empty fields included.
pub proof fn lemma_form_size_exact(r: FormRecord)
    requires
        r.creator.len() == 32,
    ensures
        Form::spec_account_size(r.code, r.schema_url, r.encryption_key) == r.encode().len(),
{
}

/// The size computed from the variable-length fields of a
/// submission is the length of the submission's encoding, empty fields
/// included.
pub proof fn lemma_submission_size_exact(r: SubmissionRecord)
    requires
        r.form.len() == 32,
        r.author.len() == 32,
    ensures
        Submission::spec_account_size(r.content_url, r.symmetric_key) == r.encode().len(),
{
}

/// Bytes from which no form is read are the encoding of no valid form.
pub proof fn lemma_parse_form_rejects(s: Seq<u8>)
    requires
        parse_form(s) is None,
    ensures
        forall|r: FormRecord| r.wf() ==> #[trigger] r.encode() != s,
{
    assert forall|r: FormRecord| r.wf() implies #[trigger] r.encode() != s by {
        lemma_form_round_trip(r);
    }
}

/// Bytes from which no submission is read are the encoding of no valid
/// submission.
pub proof fn lemma_parse_submission_rejects(s: Seq<u8>)
    requires
        parse_submission(s) is None,
    ensures
        forall|r: SubmissionRecord| r.wf() ==> #[trigger] r.encode() != s,
{
    assert forall|r: SubmissionRecord| r.wf() implies #[trigger] r.encode() != s by {
        lemma_submission_round_trip(r);
    }
}

impl Form {
    /// The number of bytes that a form with these variable-length fields
    /// takes in its slot.
    pub open spec fn spec_account_size(
        code: Seq<char>,
        schema_url: Seq<char>,
        encryption_key: Seq<u8>,
    ) -> nat {
        32 + (4 + text_bytes(code).len()) + (4 + text_bytes(schema_url).len()) + (4
            + encryption_key.len()) + 1
    }

    /// The number of bytes to reserve for a form with these variable-length
    /// fields: thirty-two for the creator, each field with four bytes for
    /// its length, and one for the bump.
    pub fn get_account_size(code: &str, schema_url: &str, encryption_key: &[u8]) -> (size: usize)
        requires
            Form::spec_account_size(code@, schema_url@, encryption_key@) <= usize::MAX,
        ensures
            size == Form::spec_account_size(code@, schema_url@, encryption_key@),
    {
        32 + (4 + code.len()) + (4 + schema_url.len()) + (4 + encryption_key.len()) + 1
    }

    /// The number of bytes that this form takes in its slot.
    pub fn encoded_len(&self) -> (size: u64)
        requires
            self@.wf(),
        ensures
            size == self@.encode().len(),
            size == Form::spec_account_size(self.code@, self.schema_url@, self.encryption_key@),
    {
        proof {
            crate::wire::lemma_u32_round_trip(text_bytes(self.code@).len() as u32);
            crate::wire::lemma_u32_round_trip(text_bytes(self.schema_url@).len() as u32);
            crate::wire::lemma_u32_round_trip(self.encryption_key@.len() as u32);
        }
        let code: u64 = self.code.as_str().len() as u64;
        let schema_url: u64 = self.schema_url.as_str().len() as u64;
        let encryption_key: u64 = self.encryption_key.len() as u64;
        32 + (4 + code) + (4 + schema_url) + (4 + encryption_key) + 1
    }

    /// The bytes of the form in its slot.
    pub fn encode(&self) -> (bytes: Vec<u8>)
        requires
            self@.wf(),
        ensures
            bytes@ == self@.encode(),
    {
        let mut out: Vec<u8> = Vec::new();
        put_bytes(&mut out, self.creator.as_slice());
        put_text(&mut out, self.code.as_str());
        put_text(&mut out, self.schema_url.as_str());
        put_field(&mut out, self.encryption_key.as_slice());
        out.push(self.bump);
        assert(out@ =~= self@.encode());
        out
    }

    /// Reads a form from the bytes of its slot. The bytes must be the whole
    /// encoding of a valid form and nothing else: a wrong total length, a
    /// length prefix that points past the end, or text that is not UTF-8
    /// gives `InvalidSubmissionData`.
    pub fn decode(bytes: &[u8]) -> (result: Result<Form, FormanaError>)
        ensures
            match result {
                Ok(form) => form@.wf() && form@.encode() == bytes@,
                Err(e) => e == FormanaError::InvalidSubmissionData && forall|r: FormRecord|
                    r.wf() ==> #[trigger] r.encode() != bytes@,
            },
            match result {
                Ok(form) => parse_form(bytes@) == Some(form@),
                Err(_) => parse_form(bytes@) is None,
            },
    {
        if bytes.len() < 32 {
            proof {
                lemma_parse_form_rejects(bytes@);
            }
            return Err(FormanaError::InvalidSubmissionData);
        }
        let first = match take_field(bytes, 32) {
            Some(end) => end,
            None => {
                proof {
                    lemma_parse_form_rejects(bytes@);
                }
                return Err(FormanaError::InvalidSubmissionData);
            },
        };
        let second = match take_field(bytes, first) {
            Some(end) => end,
            None => {
                proof {
                    lemma_parse_form_rejects(bytes@);
                }
                return Err(FormanaError::InvalidSubmissionData);
            },
        };
        let third = match take_field(bytes, second) {
            Some(end) => end,
            None => {
                proof {
                    lemma_parse_form_rejects(bytes@);
                }
                return Err(FormanaError::InvalidSubmissionData);
            },
        };
        if bytes.len() - third != 1 {
            proof {
                lemma_parse_form_rejects(bytes@);
            }
            return Err(FormanaError::InvalidSubmissionData);
        }
        let code = match take_text(bytes, 36, first) {
            Some(text) => text,
            None => {
                proof {
                    lemma_parse_form_rejects(bytes@);
                }
                return Err(FormanaError::InvalidSubmissionData);
            },
        };
        let schema_url = match take_text(bytes, first + 4, second) {
            Some(text) => text,
            None => {
                proof {
                    lemma_parse_form_rejects(bytes@);
                }
                return Err(FormanaError::InvalidSubmissionData);
            },
        };
        let form = Form {
            creator: take_address(bytes, 0),
            code,
            schema_url,
            encryption_key: copy_range(bytes, second + 4, third),
            bump: bytes[third],
        };
        proof {
            lemma_parse_form_sound(bytes@);
        }
        Ok(form)
    }
}

impl Submission {
    /// The number of bytes that a submission with these variable-length
    /// fields takes in its slot.
    pub open spec fn spec_account_size(content_url: Seq<char>, symmetric_key: Seq<u8>) -> nat {
        32 + 32 + 8 + (4 + text_bytes(content_url).len()) + (4 + symmetric_key.len()) + 1
    }

    /// The number of bytes to reserve for a submission with these
    /// variable-length fields: thirty-two each for form and author, eight
    /// for the timestamp, each field with four bytes for its length, and one
    /// for the bump.
    pub fn get_account_size(content_url: &str, symmetric_key: &[u8]) -> (size: usize)
        requires
            Submission::spec_account_size(content_url@, symmetric_key@) <= usize::MAX,
        ensures
            size == Submission::spec_account_size(content_url@, symmetric_key@),
    {
        32 + 32 + 8 + (4 + content_url.len()) + (4 + symmetric_key.len()) + 1
    }

    /// The number of bytes that this submission takes in its slot.
    pub fn encoded_len(&self) -> (size: u64)
        requires
            self@.wf(),
        ensures
            size == self@.encode().len(),
            size == Submission::spec_account_size(self.content_url@, self.symmetric_key@),
    {
        proof {
            lemma_u64_round_trip(self.timestamp);
            crate::wire::lemma_u32_round_trip(text_bytes(self.content_url@).len() as u32);
            crate::wire::lemma_u32_round_trip(self.symmetric_key@.len() as u32);
        }
        let content_url: u64 = self.content_url.as_str().len() as u64;
        let symmetric_key: u64 = self.symmetric_key.len() as u64;
        32 + 32 + 8 + (4 + content_url) + (4 + symmetric_key) + 1
    }

    /// The bytes of the submission in its slot.
    pub fn encode(&self) -> (bytes: Vec<u8>)
        requires
            self@.wf(),
        ensures
            bytes@ == self@.encode(),
    {
        let mut out: Vec<u8> = Vec::new();
        put_bytes(&mut out, self.form.as_slice());
        put_bytes(&mut out, self.author.as_slice());
        put_u64(&mut out, self.timestamp);
        put_text(&mut out, self.content_url.as_str());
        put_field(&mut out, self.symmetric_key.as_slice());
        out.push(self.bump);
        assert(out@ =~= self@.encode());
        out
    }

    /// Reads a submission from the bytes of its slot. The bytes must be the
    /// whole encoding of a valid submission and nothing else: a wrong total
    /// length, a length prefix that points past the end, or text that is not
    /// UTF-8 gives `InvalidSubmissionData`.
    pub fn decode(bytes: &[u8]) -> (result: Result<Submission, FormanaError>)
        ensures
            match result {
                Ok(submission) => submission@.wf() && submission@.encode() == bytes@,
                Err(e) => e == FormanaError::InvalidSubmissionData && forall|
                    r: SubmissionRecord,
                | r.wf() ==> #[trigger] r.encode() != bytes@,
            },
            match result {
                Ok(submission) => parse_submission(bytes@) == Some(submission@),
                Err(_) => parse_submission(bytes@) is None,
            },
    {
        if bytes.len() < 72 {
            proof {
                lemma_parse_submission_rejects(bytes@);
            }
            return Err(FormanaError::InvalidSubmissionData);
        }
        let first = match take_field(bytes, 72) {
            Some(end) => end,
            None => {
                proof {
                    lemma_parse_submission_rejects(bytes@);
                }
                return Err(FormanaError::InvalidSubmissionData);
            },
        };
        let second = match take_field(bytes, first) {
            Some(end) => end,
            None => {
                proof {
                    lemma_parse_submission_rejects(bytes@);
                }
                return Err(FormanaError::InvalidSubmissionData);
            },
        };
        if bytes.len() - second != 1 {
            proof {
                lemma_parse_submission_rejects(bytes@);
            }
            return Err(FormanaError::InvalidSubmissionData);
        }
        let content_url = match take_text(bytes, 76, first) {
            Some(text) => text,
            None => {
                proof {
                    lemma_parse_submission_rejects(bytes@);
                }
                return Err(FormanaError::InvalidSubmissionData);
            },
        };
        let submission = Submission {
            form: take_address(bytes, 0),
            author: take_address(bytes, 32),
            timestamp: get_u64(bytes, 64),
            content_url,
            symmetric_key: copy_range(bytes, first + 4, second),
            bump: bytes[second],
        };
        proof {
            lemma_parse_submission_sound(bytes@);
        }
        Ok(submission)
    }
}

impl Default for Form {
    /// The form of the all-zero creator, with every field empty.
    fn default() -> (form: Form)
        ensures
            form@ == (FormRecord {
                creator: Seq::new(32, |i: int| 0u8),
                code: Seq::empty(),
                schema_url: Seq::empty(),
                encryption_key: Seq::empty(),
                bump: 0,
            }),
    {
        let form = Form {
            creator: [0u8; 32],
            code: String::new(),
            schema_url: String::new(),
            encryption_key: Vec::new(),
            bump: 0,
        };
        assert(form.creator@ =~= Seq::new(32, |i: int| 0u8));
        form
    }
}

impl Default for Submission {
    /// The submission of the all-zero author to the all-zero form, at time
    /// zero, with every field empty.
    fn default() -> (submission: Submission)
        ensures
            submission@ == (SubmissionRecord {
                form: Seq::new(32, |i: int| 0u8),
                author: Seq::new(32, |i: int| 0u8),
                timestamp: 0,
                content_url: Seq::empty(),
                symmetric_key: Seq::empty(),
                bump: 0,
            }),
    {
        let submission = Submission {
            form: [0u8; 32],
            author: [0u8; 32],
            timestamp: 0,
            content_url: String::new(),
            symmetric_key: Vec::new(),
            bump: 0,
        };
        assert(submission.form@ =~= Seq::new(32, |i: int| 0u8));
        assert(submission.author@ =~= Seq::new(32, |i: int| 0u8));
        submission
    }
}

} // verus!
