//! The messages that a frontend sends, and their layout on the wire.

use crate::wire::{
    be16, be16_all, be32, be32_all, cstr, frame, optional_slice, put_bytes, put_cstr, put_frame,
    put_i16_all, put_u16, put_u32, put_u32_all, put_u8, to_unsigned16, to_unsigned32, unsigned16,
    unsigned32, MAX_FRAME_LENGTH,
};
use vstd::prelude::*;
use vstd::string::StringSliceAdditionalSpecFns;

verus! {

/// Tag of the message that prepares a statement.
pub const TAG_PARSE: u8 = 80;

/// Tag of the message that binds parameters to a statement.
pub const TAG_BIND: u8 = 66;

/// Tag of the message that runs a portal.
pub const TAG_EXECUTE: u8 = 69;

/// Tag of the message that ends a series of commands.
pub const TAG_SYNC: u8 = 83;

/// Tag of the message that ends the session.
pub const TAG_TERMINATE: u8 = 88;

/// Tag of the message that answers a request for a password.
pub const TAG_PASSWORD: u8 = 112;

/// The protocol version that a start-up packet asks for: 3.0.
pub const PROTOCOL_VERSION: u32 = 196608;

/// The most entries that a count of two bytes can announce.
pub const MAX_COUNT: usize = 32767;

/// The payload of a Parse message: the name of the statement, the text of
/// the query, and the type of each parameter.
pub open spec fn parse_payload(statement: Seq<u8>, query: Seq<u8>, types: Seq<u32>) -> Seq<u8> {
    cstr(statement) + cstr(query) + be16(types.len() as u16) + be32_all(types)
}

/// The payload of a Bind message: the names of portal and statement, the
/// formats of the parameters, the count of the parameters and their values,
/// each behind its length, and the formats of the result's columns.
pub open spec fn bind_payload(
    portal: Seq<u8>,
    statement: Seq<u8>,
    formats: Seq<i16>,
    values_len: i16,
    values: Seq<u8>,
    result_formats: Seq<i16>,
) -> Seq<u8> {
    cstr(portal) + cstr(statement) + be16(formats.len() as u16) + be16_all(formats) + be16(
        unsigned16(values_len),
    ) + values + be16(result_formats.len() as u16) + be16_all(result_formats)
}

/// The payload of an Execute message: the name of the portal and the most
/// rows to return, 0 for all of them.
pub open spec fn execute_payload(portal: Seq<u8>, limit: i32) -> Seq<u8> {
    cstr(portal) + be32(unsigned32(limit))
}

/// The word `user`.
pub open spec fn user_key() -> Seq<u8> {
    seq![117u8, 115u8, 101u8, 114u8]
}

/// The word `database`.
pub open spec fn database_key() -> Seq<u8> {
    seq![100u8, 97u8, 116u8, 97u8, 98u8, 97u8, 115u8, 101u8]
}

/// What a start-up packet holds behind its length: the protocol version, the
/// user, the database where one is named, and a zero byte.
pub open spec fn startup_payload(user: Seq<u8>, database: Option<Seq<u8>>) -> Seq<u8> {
    be32(PROTOCOL_VERSION) + cstr(user_key()) + cstr(user) + (match database {
        Some(d) => cstr(database_key()) + cstr(d),
        None => Seq::<u8>::empty(),
    }) + seq![0u8]
}

/// A start-up packet: it has no tag, only the length that counts itself and
/// what follows.
pub open spec fn startup_wire(user: Seq<u8>, database: Option<Seq<u8>>) -> Seq<u8> {
    be32((startup_payload(user, database).len() + 4) as u32) + startup_payload(user, database)
}

/// A message that a frontend can put on the wire.
pub trait Encode {
    /// The bytes of the message as it travels.
    spec fn wire(&self) -> Seq<u8>;

    /// Whether every length and count of the message fits its field.
    spec fn fits(&self) -> bool;

    /// Appends the message to `buf`.
    fn encode(&self, buf: &mut Vec<u8>)
        requires
            self.fits(),
        ensures
            final(buf)@ == old(buf)@ + self.wire(),
    ;
}

/// Prepares `query` as the statement named `portal`.
pub struct Parse<'a> {
    pub portal: &'a str,
    pub query: &'a str,
    pub param_types: &'a [u32],
}

/// Binds parameter values to a statement, which makes a portal.
pub struct Bind<'a> {
    pub portal: &'a str,
    pub statement: &'a str,
    pub formats: &'a [i16],
    pub values_len: i16,
    pub values: &'a [u8],
    pub result_formats: &'a [i16],
}

/// Runs a portal, for at most `limit` rows where `limit` is not 0.
pub struct Execute<'a> {
    pub portal: &'a str,
    pub limit: i32,
}

/// Ends a series of commands: the backend answers that it is ready.
pub struct Sync;

/// Ends the session.
pub struct Terminate;

/// Opens a session for `user`, on `database` where one is named.
pub struct StartupMessage<'a> {
    pub user: &'a [u8],
    pub database: Option<&'a [u8]>,
}

/// Answers a request for a clear-text password.
pub struct PasswordMessage<'a> {
    pub password: &'a [u8],
}

impl<'a> Encode for Parse<'a> {
    open spec fn wire(&self) -> Seq<u8> {
        frame(
            TAG_PARSE,
            parse_payload(self.portal.spec_bytes(), self.query.spec_bytes(), self.param_types@),
        )
    }

    open spec fn fits(&self) -> bool {
        &&& self.param_types@.len() <= MAX_COUNT
        &&& parse_payload(
            self.portal.spec_bytes(),
            self.query.spec_bytes(),
            self.param_types@,
        ).len() + 4 <= MAX_FRAME_LENGTH
    }

    fn encode(&self, buf: &mut Vec<u8>) {
        let mut body: Vec<u8> = Vec::new();
        put_cstr(&mut body, self.portal.as_bytes());
        put_cstr(&mut body, self.query.as_bytes());
        put_u16(&mut body, self.param_types.len() as u16);
        put_u32_all(&mut body, self.param_types);
        assert(body@ =~= parse_payload(
            self.portal.spec_bytes(),
            self.query.spec_bytes(),
            self.param_types@,
        ));
        put_frame(buf, TAG_PARSE, body.as_slice());
    }
}

impl<'a> Encode for Bind<'a> {
    open spec fn wire(&self) -> Seq<u8> {
        frame(
            TAG_BIND,
            bind_payload(
                self.portal.spec_bytes(),
                self.statement.spec_bytes(),
                self.formats@,
                self.values_len,
                self.values@,
                self.result_formats@,
            ),
        )
    }

    open spec fn fits(&self) -> bool {
        &&& self.formats@.len() <= MAX_COUNT
        &&& self.result_formats@.len() <= MAX_COUNT
        &&& bind_payload(
            self.portal.spec_bytes(),
            self.statement.spec_bytes(),
            self.formats@,
            self.values_len,
            self.values@,
            self.result_formats@,
        ).len() + 4 <= MAX_FRAME_LENGTH
    }

    fn encode(&self, buf: &mut Vec<u8>) {
        let mut body: Vec<u8> = Vec::new();
        put_cstr(&mut body, self.portal.as_bytes());
        put_cstr(&mut body, self.statement.as_bytes());
        put_u16(&mut body, self.formats.len() as u16);
        put_i16_all(&mut body, self.formats);
        put_u16(&mut body, to_unsigned16(self.values_len));
        put_bytes(&mut body, self.values);
        put_u16(&mut body, self.result_formats.len() as u16);
        put_i16_all(&mut body, self.result_formats);
        assert(body@ =~= bind_payload(
            self.portal.spec_bytes(),
            self.statement.spec_bytes(),
            self.formats@,
            self.values_len,
            self.values@,
            self.result_formats@,
        ));
        put_frame(buf, TAG_BIND, body.as_slice());
    }
}

impl<'a> Encode for Execute<'a> {
    open spec fn wire(&self) -> Seq<u8> {
        frame(TAG_EXECUTE, execute_payload(self.portal.spec_bytes(), self.limit))
    }

    open spec fn fits(&self) -> bool {
        execute_payload(self.portal.spec_bytes(), self.limit).len() + 4 <= MAX_FRAME_LENGTH
    }

    fn encode(&self, buf: &mut Vec<u8>) {
        let mut body: Vec<u8> = Vec::new();
        put_cstr(&mut body, self.portal.as_bytes());
        put_u32(&mut body, to_unsigned32(self.limit));
        assert(body@ =~= execute_payload(self.portal.spec_bytes(), self.limit));
        put_frame(buf, TAG_EXECUTE, body.as_slice());
    }
}

impl Encode for Sync {
    open spec fn wire(&self) -> Seq<u8> {
        frame(TAG_SYNC, Seq::<u8>::empty())
    }

    open spec fn fits(&self) -> bool {
        true
    }

    fn encode(&self, buf: &mut Vec<u8>) {
        let body: Vec<u8> = Vec::new();
        put_frame(buf, TAG_SYNC, body.as_slice());
    }
}

impl Encode for Terminate {
    open spec fn wire(&self) -> Seq<u8> {
        frame(TAG_TERMINATE, Seq::<u8>::empty())
    }

    open spec fn fits(&self) -> bool {
        true
    }

    fn encode(&self, buf: &mut Vec<u8>) {
        let body: Vec<u8> = Vec::new();
        put_frame(buf, TAG_TERMINATE, body.as_slice());
    }
}

impl<'a> Encode for StartupMessage<'a> {
    open spec fn wire(&self) -> Seq<u8> {
        startup_wire(self.user@, optional_slice(self.database))
    }

    open spec fn fits(&self) -> bool {
        startup_payload(self.user@, optional_slice(self.database)).len() + 4 <= MAX_FRAME_LENGTH
    }

    fn encode(&self, buf: &mut Vec<u8>) {
        let mut body: Vec<u8> = Vec::new();
        put_u32(&mut body, PROTOCOL_VERSION);
        put_u8(&mut body, 117u8);
        put_u8(&mut body, 115u8);
        put_u8(&mut body, 101u8);
        put_u8(&mut body, 114u8);
        put_u8(&mut body, 0u8);
        put_cstr(&mut body, self.user);
        match self.database {
            Some(d) => {
                put_u8(&mut body, 100u8);
                put_u8(&mut body, 97u8);
                put_u8(&mut body, 116u8);
                put_u8(&mut body, 97u8);
                put_u8(&mut body, 98u8);
                put_u8(&mut body, 97u8);
                put_u8(&mut body, 115u8);
                put_u8(&mut body, 101u8);
                put_u8(&mut body, 0u8);
                put_cstr(&mut body, d);
            },
            None => {},
        }
        put_u8(&mut body, 0u8);
        assert(body@ =~= startup_payload(self.user@, optional_slice(self.database)));
        let ghost before = buf@;
        put_u32(buf, (body.len() + 4) as u32);
        put_bytes(buf, body.as_slice());
        assert(buf@ =~= before + self.wire());
    }
}

impl<'a> Encode for PasswordMessage<'a> {
    open spec fn wire(&self) -> Seq<u8> {
        frame(TAG_PASSWORD, cstr(self.password@))
    }

    open spec fn fits(&self) -> bool {
        self.password@.len() + 5 <= MAX_FRAME_LENGTH
    }

    fn encode(&self, buf: &mut Vec<u8>) {
        let mut body: Vec<u8> = Vec::new();
        put_cstr(&mut body, self.password);
        put_frame(buf, TAG_PASSWORD, body.as_slice());
    }
}

} // verus!
