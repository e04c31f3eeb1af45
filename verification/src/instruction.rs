//! The two commands of the store and their wire format: a tag byte, then
//! the command's fields, each with its length in front.

use vstd::prelude::*;
use vstd::utf8::{decode_utf8, valid_utf8};

use crate::error::FormanaError;
use crate::wire::{
    field, field_end, fits, lemma_field_found, lemma_field_written, put_field, put_text,
    take_field, take_text, text_bytes, copy_range,
};

verus! {

/// A command, as it arrives from a caller.
#[derive(Debug, Clone, PartialEq, Eq)]
pub enum FormInstruction {
    /// Creates a form. Accounts, in order: the creator, who signs; the form
    /// slot, writable; the system program; the payer.
    CreateForm { code: String, schema_url: String, encryption_key: Vec<u8> },
    /// Creates a submission. Accounts, in order: the author, who signs; the
    /// form slot, writable; the submission slot, writable; the system
    /// program; the payer.
    CreateSubmission { content_url: String, symmetric_key: Vec<u8> },
}

/// What a command holds, as mathematical values.
pub enum Command {
    CreateForm { code: Seq<char>, schema_url: Seq<char>, encryption_key: Seq<u8> },
    CreateSubmission { content_url: Seq<char>, symmetric_key: Seq<u8> },
}

impl Command {
    /// A command is valid when the length of each of its fields can stand in
    /// the four bytes in front of it.
    pub open spec fn wf(self) -> bool {
        match self {
            Command::CreateForm { code, schema_url, encryption_key } => {
                &&& fits(text_bytes(code))
                &&& fits(text_bytes(schema_url))
                &&& fits(encryption_key)
            },
            Command::CreateSubmission { content_url, symmetric_key } => {
                &&& fits(text_bytes(content_url))
                &&& fits(symmetric_key)
            },
        }
    }

    /// The bytes of a command on the wire.
    pub open spec fn encode(self) -> Seq<u8> {
        match self {
            Command::CreateForm { code, schema_url, encryption_key } => seq![0u8] + field(
                text_bytes(code),
            ) + field(text_bytes(schema_url)) + field(encryption_key),
            Command::CreateSubmission { content_url, symmetric_key } => seq![1u8] + field(
                text_bytes(content_url),
            ) + field(symmetric_key),
        }
    }
}

impl View for FormInstruction {
    type V = Command;

    open spec fn view(&self) -> Command {
        match *self {
            FormInstruction::CreateForm {
                code,
                schema_url,
                encryption_key,
            } => Command::CreateForm {
                code: code@,
                schema_url: schema_url@,
                encryption_key: encryption_key@,
            },
            FormInstruction::CreateSubmission {
                content_url,
                symmetric_key,
            } => Command::CreateSubmission {
                content_url: content_url@,
                symmetric_key: symmetric_key@,
            },
        }
    }
}

/// The valid command that `s` is the encoding of, if it is that of any: what
/// reading `s` field by field yields.
pub closed spec fn parse(s: Seq<u8>) -> Option<Command> {
    if s.len() == 0 {
        None
    } else if s[0] == 0 {
        match field_end(s, 1) {
            Some(e1) => match field_end(s, e1) {
                Some(e2) => match field_end(s, e2) {
                    Some(e3) => if e3 == s.len() && valid_utf8(s.subrange(5, e1)) && valid_utf8(
                        s.subrange(e1 + 4, e2),
                    ) {
                        Some(
                            Command::CreateForm {
                                code: decode_utf8(s.subrange(5, e1)),
                                schema_url: decode_utf8(s.subrange(e1 + 4, e2)),
                                encryption_key: s.subrange(e2 + 4, e3),
                            },
                        )
                    } else {
                        None
                    },
                    None => None,
                },
                None => None,
            },
            None => None,
        }
    } else if s[0] == 1 {
        match field_end(s, 1) {
            Some(e1) => match field_end(s, e1) {
                Some(e2) => if e2 == s.len() && valid_utf8(s.subrange(5, e1)) {
                    Some(
                        Command::CreateSubmission {
                            content_url: decode_utf8(s.subrange(5, e1)),
                            symmetric_key: s.subrange(e1 + 4, e2),
                        },
                    )
                } else {
                    None
                },
                None => None,
            },
            None => None,
        }
    } else {
        None
    }
}

/// What is read is a valid command, and the bytes read are its encoding.
pub proof fn lemma_parse_sound(s: Seq<u8>)
    requires
        parse(s) is Some,
    ensures
        parse(s)->0.wf(),
        parse(s)->0.encode() == s,
{
    let c = parse(s)->0;
    let e1 = field_end(s, 1)->0;
    let e2 = field_end(s, e1)->0;
    lemma_field_found(s, 1);
    lemma_field_found(s, e1);
    vstd::utf8::decode_utf8_encode_utf8(s.subrange(5, e1));
    assert(s =~= seq![s[0]] + s.skip(1));
    if s[0] == 0 {
        let e3 = field_end(s, e2)->0;
        lemma_field_found(s, e2);
        vstd::utf8::decode_utf8_encode_utf8(s.subrange(e1 + 4, e2));
        assert(s.skip(e3) =~= Seq::<u8>::empty());
        assert(c.encode() =~= s);
    } else {
        assert(s.skip(e2) =~= Seq::<u8>::empty());
        assert(c.encode() =~= s);
    }
}

/// The encoding of a valid command decodes to that command.
pub proof fn lemma_round_trip(c: Command)
    requires
        c.wf(),
    ensures
        parse(c.encode()) == Some(c),
{
    let s = c.encode();
    match c {
        Command::CreateForm { code, schema_url, encryption_key } => {
            let u1 = text_bytes(code);
            let u2 = text_bytes(schema_url);
            let k = encryption_key;
            assert(s.skip(1) =~= field(u1) + (field(u2) + field(k)));
            lemma_field_written(s, 1, u1, field(u2) + field(k));
            let e1: int = 5 + u1.len() as int;
            lemma_field_written(s, e1, u2, field(k));
            let e2: int = e1 + 4 + u2.len() as int;
            assert(s.skip(e2) =~= field(k) + Seq::<u8>::empty());
            lemma_field_written(s, e2, k, Seq::<u8>::empty());
            vstd::utf8::encode_utf8_valid_utf8(code);
            vstd::utf8::encode_utf8_valid_utf8(schema_url);
            vstd::utf8::encode_utf8_decode_utf8(code);
            vstd::utf8::encode_utf8_decode_utf8(schema_url);
        },
        Command::CreateSubmission { content_url, symmetric_key } => {
            let u1 = text_bytes(content_url);
            let k = symmetric_key;
            assert(s.skip(1) =~= field(u1) + field(k));
            lemma_field_written(s, 1, u1, field(k));
            let e1: int = 5 + u1.len() as int;
            assert(s.skip(e1) =~= field(k) + Seq::<u8>::empty());
            lemma_field_written(s, e1, k, Seq::<u8>::empty());
            vstd::utf8::encode_utf8_valid_utf8(content_url);
            vstd::utf8::encode_utf8_decode_utf8(content_url);
        },
    }
}

/// Two valid commands with the same encoding are the same command.
pub proof fn lemma_encoding_injective(a: Command, b: Command)
    requires
        a.wf(),
        b.wf(),
        a.encode() == b.encode(),
    ensures
        a == b,
{
    lemma_round_trip(a);
    lemma_round_trip(b);
}

/// Bytes from which nothing is read are the encoding of no valid command.
pub proof fn lemma_parse_rejects(s: Seq<u8>)
    requires
        parse(s) is None,
    ensures
        forall|c: Command| c.wf() ==> #[trigger] c.encode() != s,
{
    assert forall|c: Command| c.wf() implies #[trigger] c.encode() != s by {
        lemma_round_trip(c);
    }
}

impl FormInstruction {
    /// Decodes a command from its bytes on the wire. The first byte selects
    /// the command; the fields follow, and nothing may follow them. Bytes
    /// that are the encoding of no valid command give `InvalidInstruction`.
    pub fn unpack(input: &[u8]) -> (result: Result<FormInstruction, FormanaError>)
        ensures
            match result {
                Ok(instruction) => instruction@.wf() && instruction@.encode() == input@,
                Err(e) => e == FormanaError::InvalidInstruction && forall|c: Command|
                    c.wf() ==> #[trigger] c.encode() != input@,
            },
            match result {
                Ok(instruction) => parse(input@) == Some(instruction@),
                Err(_) => parse(input@) is None,
            },
    {
        if input.len() == 0 {
            proof {
                lemma_parse_rejects(input@);
            }
            return Err(FormanaError::InvalidInstruction);
        }
        let variant = input[0];
        if variant != 0 && variant != 1 {
            proof {
                lemma_parse_rejects(input@);
            }
            return Err(FormanaError::InvalidInstruction);
        }
        let first = match take_field(input, 1) {
            Some(end) => end,
            None => {
                proof {
                    lemma_parse_rejects(input@);
                }
                return Err(FormanaError::InvalidInstruction);
            },
        };
        let second = match take_field(input, first) {
            Some(end) => end,
            None => {
                proof {
                    lemma_parse_rejects(input@);
                }
                return Err(FormanaError::InvalidInstruction);
            },
        };
        let head = match take_text(input, 5, first) {
            Some(text) => text,
            None => {
                proof {
                    lemma_parse_rejects(input@);
                }
                return Err(FormanaError::InvalidInstruction);
            },
        };
        if variant == 0 {
            let third = match take_field(input, second) {
                Some(end) => end,
                None => {
                    proof {
                        lemma_parse_rejects(input@);
                    }
                    return Err(FormanaError::InvalidInstruction);
                },
            };
            let schema_url = match take_text(input, first + 4, second) {
                Some(text) => text,
                None => {
                    proof {
                        lemma_parse_rejects(input@);
                    }
                    return Err(FormanaError::InvalidInstruction);
                },
            };
            if third != input.len() {
                proof {
                    lemma_parse_rejects(input@);
                }
                return Err(FormanaError::InvalidInstruction);
            }
            let encryption_key = copy_range(input, second + 4, third);
            proof {
                lemma_parse_sound(input@);
            }
            Ok(FormInstruction::CreateForm { code: head, schema_url, encryption_key })
        } else {
            if second != input.len() {
                proof {
                    lemma_parse_rejects(input@);
                }
                return Err(FormanaError::InvalidInstruction);
            }
            let symmetric_key = copy_range(input, first + 4, second);
            proof {
                lemma_parse_sound(input@);
            }
            Ok(FormInstruction::CreateSubmission { content_url: head, symmetric_key })
        }
    }

    /// Encodes the command for the wire.
    pub fn pack(&self) -> (bytes: Vec<u8>)
        requires
            self@.wf(),
        ensures
            bytes@ == self@.encode(),
    {
        let mut out: Vec<u8> = Vec::new();
        match self {
            FormInstruction::CreateForm { code, schema_url, encryption_key } => {
                out.push(0u8);
                put_text(&mut out, code.as_str());
                put_text(&mut out, schema_url.as_str());
                put_field(&mut out, encryption_key.as_slice());
            },
            FormInstruction::CreateSubmission { content_url, symmetric_key } => {
                out.push(1u8);
                put_text(&mut out, content_url.as_str());
                put_field(&mut out, symmetric_key.as_slice());
            },
        }
        assert(out@ =~= self@.encode());
        out
    }
}

} // verus!
