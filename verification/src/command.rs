//! The command executor: what is sent for a command, on which connection,
//! and what its reply means.
//!
//! The executor does no input or output. Its caller owns the byte streams:
//! it takes a [`Request`], sends the payload on the connection named in it,
//! and hands the reply, or the news that the transport failed, to
//! [`Command::complete`].

use crate::error::{Error, ErrorView};
use crate::pack::{outcome, spec_unpack, unpack, Types};
use crate::socket::{PoolView, SocketPool};
use vstd::prelude::*;
use vstd::utf8::encode_utf8;

verus! {

/// What is sent for a command text: its UTF-8 bytes and one NUL byte.
pub open spec fn command_payload(text: Seq<char>) -> Seq<u8> {
    encode_utf8(text).push(0u8)
}

/// One payload to send, and the checked-out connection to send it on.
#[derive(Debug)]
pub struct Request {
    pub connection: usize,
    pub payload: Vec<u8>,
}

/// The executor, with the pool its commands draw connections from.
pub struct Command {
    pool: SocketPool,
}

impl Command {
    /// The state of the executor's pool.
    pub closed spec fn pool(&self) -> PoolView {
        self.pool@
    }

    /// An executor over the given pool.
    pub fn new(pool: SocketPool) -> (command: Command)
        ensures
            command.pool() == pool@,
    {
        Command { pool }
    }

    /// Starts a request with the given payload: checks out a connection for
    /// it. With no idle connection the request fails at once, and nothing is
    /// to be sent.
    pub fn transmit(&mut self, payload: Vec<u8>) -> (r: Result<Request, Error>)
        ensures
            final(self).pool() == old(self).pool().get().1,
            final(self).pool().wf(),
            match old(self).pool().get().0 {
                Some(c) => r matches Ok(request) && request.connection == c && request.payload
                    == payload,
                None => r matches Err(e) && e@ == ErrorView::PoolExhausted,
            },
    {
        match self.pool.get() {
            Some(connection) => Ok(Request { connection, payload }),
            None => Err(Error::PoolExhausted),
        }
    }

    /// Starts a command: the payload is the text with a NUL byte appended,
    /// the connection is checked out of the pool.
    pub fn execute_command(&mut self, cmd: &str) -> (r: Result<Request, Error>)
        ensures
            final(self).pool() == old(self).pool().get().1,
            final(self).pool().wf(),
            match old(self).pool().get().0 {
                Some(c) => r matches Ok(request) && request.connection == c && request.payload@
                    == command_payload(cmd@),
                None => r matches Err(e) && e@ == ErrorView::PoolExhausted,
            },
    {
        let mut payload = cmd.as_bytes_vec();
        payload.push(0);
        self.transmit(payload)
    }

    /// Ends a request. With a reply, the connection goes back to the pool and
    /// the reply is decoded. Without one the transport has failed: the
    /// connection is unusable and is not returned.
    pub fn complete(&mut self, connection: usize, reply: Option<Vec<u8>>) -> (r: Result<
        Types,
        Error,
    >)
        ensures
            final(self).pool().wf(),
            match reply {
                Some(bytes) => final(self).pool() == old(self).pool().put(connection) && outcome(r)
                    == spec_unpack(bytes@),
                None => final(self).pool() == old(self).pool() && outcome(r) == Err::<
                    crate::pack::Value,
                    ErrorView,
                >(ErrorView::Connection),
            },
    {
        match reply {
            Some(bytes) => {
                self.pool.put(connection);
                unpack(bytes.as_slice())
            },
            None => {
                proof {
                    use_type_invariant(&self.pool);
                }
                Err(Error::Connection)
            },
        }
    }

    /// Gives the pool back, ending the executor.
    pub fn get_pool(self) -> (pool: SocketPool)
        ensures
            pool@ == self.pool(),
    {
        self.pool
    }
}

} // verus!
