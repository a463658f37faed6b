//! The command texts that the server understands, and a builder that strings
//! several of them into one pipeline.

use crate::command::{command_payload, Command, Request};
use crate::error::{Error, ErrorView};
use crate::utils::{decimal, rfc3339, rfc3339_text, spec_decimal};
use vstd::prelude::*;
use vstd::string::StringExecFns;

verus! {

/// A word followed by one quoted argument: `WORD 'arg'`.
pub open spec fn quoted(word: Seq<char>, arg: Seq<char>) -> Seq<char> {
    word + " '"@ + arg + "'"@
}

/// A word followed by two quoted arguments: `WORD 'first' 'second'`.
pub open spec fn quoted_pair(word: Seq<char>, first: Seq<char>, second: Seq<char>) -> Seq<char> {
    quoted(word, first) + " '"@ + second + "'"@
}

/// A word, a quoted argument and the three numbers of a sample format:
/// `WORD 'arg' rate channels depth`.
pub open spec fn with_format(
    word: Seq<char>,
    arg: Seq<char>,
    sample_rate: u32,
    channels: u16,
    bit_depth: u16,
) -> Seq<char> {
    quoted(word, arg) + " "@ + spec_decimal(sample_rate as nat) + " "@ + spec_decimal(
        channels as nat,
    ) + " "@ + spec_decimal(bit_depth as nat)
}

/// `EXTRACT 'id' from to`, the two instants as RFC 3339 texts.
pub open spec fn extract_text(id: Seq<char>, from: Seq<char>, to: Seq<char>) -> Seq<char> {
    quoted("EXTRACT"@, id) + " "@ + from + " "@ + to
}

/// The sub-commands joined into one pipeline by ` |> `.
pub open spec fn joined(commands: Seq<Seq<char>>) -> Seq<char>
    decreases commands.len(),
{
    if commands.len() == 0 {
        Seq::empty()
    } else if commands.len() == 1 {
        commands[0]
    } else {
        joined(commands.drop_last()) + " |> "@ + commands.last()
    }
}

fn quote(word: &str, arg: &str) -> (text: String)
    ensures
        text@ == quoted(word@, arg@),
{
    let mut text = String::from_str(word);
    text.append(" '");
    text.append(arg);
    text.append("'");
    text
}

fn quote_pair(word: &str, first: &str, second: &str) -> (text: String)
    ensures
        text@ == quoted_pair(word@, first@, second@),
{
    let mut text = quote(word, first);
    text.append(" '");
    text.append(second);
    text.append("'");
    text
}

fn format_text(word: &str, arg: &str, sample_rate: u32, channels: u16, bit_depth: u16) -> (text:
    String)
    ensures
        text@ == with_format(word@, arg@, sample_rate, channels, bit_depth),
{
    let mut text = quote(word, arg);
    text.append(" ");
    text.append(decimal(sample_rate as u64).as_str());
    text.append(" ");
    text.append(decimal(channels as u64).as_str());
    text.append(" ");
    text.append(decimal(bit_depth as u64).as_str());
    text
}

/// `OPEN 'id'`.
pub fn open_command(stream_id: &str) -> (text: String)
    ensures
        text@ == quoted("OPEN"@, stream_id@),
{
    quote("OPEN", stream_id)
}

/// `CLOSE 'id'`.
pub fn close_command(stream_id: &str) -> (text: String)
    ensures
        text@ == quoted("CLOSE"@, stream_id@),
{
    quote("CLOSE", stream_id)
}

/// `META 'id' 'attr'`.
pub fn meta_command(stream_id: &str, attr: &str) -> (text: String)
    ensures
        text@ == quoted_pair("META"@, stream_id@, attr@),
{
    quote_pair("META", stream_id, attr)
}

/// An instant in UTC that has an RFC 3339 text.
pub struct Timestamp {
    secs: i64,
    nanos: u32,
    text: String,
}

impl Timestamp {
    #[verifier::type_invariant]
    spec fn inv(self) -> bool {
        rfc3339_text(self.secs, self.nanos) == Some(self.text@)
    }

    /// Whole seconds since the Unix epoch.
    pub closed spec fn seconds(&self) -> i64 {
        self.secs
    }

    /// Nanoseconds since the last whole second.
    pub closed spec fn nanoseconds(&self) -> u32 {
        self.nanos
    }

    /// The RFC 3339 text of the instant.
    pub closed spec fn text(&self) -> Seq<char> {
        self.text@
    }

    /// The instant `secs` seconds and `nanos` nanoseconds after the Unix
    /// epoch; `None` where no such instant can be represented.
    pub fn new(secs: i64, nanos: u32) -> (t: Option<Timestamp>)
        ensures
            match rfc3339_text(secs, nanos) {
                Some(text) => t matches Some(ts) && ts.seconds() == secs && ts.nanoseconds()
                    == nanos && ts.text() == text,
                None => t is None,
            },
    {
        match rfc3339(secs, nanos) {
            Some(text) => Some(Timestamp { secs, nanos, text }),
            None => None,
        }
    }

    /// The RFC 3339 text of the instant.
    pub fn rfc3339(&self) -> (text: String)
        ensures
            text@ == self.text(),
            rfc3339_text(self.seconds(), self.nanoseconds()) == Some(self.text()),
    {
        proof {
            use_type_invariant(self);
        }
        self.text.clone()
    }
}

/// A list of sub-commands that `execute` sends as one pipeline.
pub struct Pipeline {
    commands: Vec<String>,
}

impl Pipeline {
    /// The sub-commands accumulated so far, in order.
    pub closed spec fn texts(&self) -> Seq<Seq<char>> {
        Seq::new(self.commands@.len(), |i: int| self.commands@[i]@)
    }

    /// This pipeline with one more sub-command at its end.
    pub open spec fn with(&self, next: &Pipeline, text: Seq<char>) -> bool {
        next.texts() == self.texts().push(text)
    }

    /// An empty pipeline.
    pub fn new() -> (p: Pipeline)
        ensures
            p.texts() == Seq::<Seq<char>>::empty(),
    {
        let p = Pipeline { commands: Vec::new() };
        assert(p.texts() =~= Seq::<Seq<char>>::empty());
        p
    }

    fn push(&mut self, text: String)
        ensures
            old(self).with(final(self), text@),
    {
        self.commands.push(text);
        assert(self.texts() =~= old(self).texts().push(text@));
    }

    /// Adds `EXTRACT 'id' from to`.
    pub fn extract(&mut self, stream_id: &str, from: &Timestamp, to: &Timestamp) -> (r: &mut Self)
        ensures
            old(self).with(r, extract_text(stream_id@, from.text(), to.text())),
            *final(self) == *final(r),
    {
        let mut text = quote("EXTRACT", stream_id);
        text.append(" ");
        text.append(from.rfc3339().as_str());
        text.append(" ");
        text.append(to.rfc3339().as_str());
        self.push(text);
        self
    }

    /// Adds `FORMAT 'mime' rate channels depth`.
    pub fn format(&mut self, mime_type: &str, sample_rate: u32, channels: u16, bit_depth: u16) -> (r:
        &mut Self)
        ensures
            old(self).with(r, with_format("FORMAT"@, mime_type@, sample_rate, channels, bit_depth)),
            *final(self) == *final(r),
    {
        self.push(format_text("FORMAT", mime_type, sample_rate, channels, bit_depth));
        self
    }

    /// Adds `CREATE 'id' rate channels depth`.
    pub fn create(&mut self, stream_id: &str, sample_rate: u32, channels: u16, bit_depth: u16) -> (r:
        &mut Self)
        ensures
            old(self).with(r, with_format("CREATE"@, stream_id@, sample_rate, channels, bit_depth)),
            *final(self) == *final(r),
    {
        self.push(format_text("CREATE", stream_id, sample_rate, channels, bit_depth));
        self
    }

    /// Adds `INFO 'id' 'attr'`.
    pub fn info(&mut self, stream_id: &str, attr: &str) -> (r: &mut Self)
        ensures
            old(self).with(r, quoted_pair("INFO"@, stream_id@, attr@)),
            *final(self) == *final(r),
    {
        self.push(quote_pair("INFO", stream_id, attr));
        self
    }

    /// Adds `SEARCH 'pattern'`.
    pub fn search(&mut self, pattern: &str) -> (r: &mut Self)
        ensures
            old(self).with(r, quoted("SEARCH"@, pattern@)),
            *final(self) == *final(r),
    {
        self.push(quote("SEARCH", pattern));
        self
    }

    /// Adds `OPEN 'id'`.
    pub fn open(&mut self, stream_id: &str) -> (r: &mut Self)
        ensures
            old(self).with(r, quoted("OPEN"@, stream_id@)),
            *final(self) == *final(r),
    {
        self.push(open_command(stream_id));
        self
    }

    /// Adds `CLOSE 'id'`.
    pub fn close(&mut self, stream_id: &str) -> (r: &mut Self)
        ensures
            old(self).with(r, quoted("CLOSE"@, stream_id@)),
            *final(self) == *final(r),
    {
        self.push(close_command(stream_id));
        self
    }

    /// Adds `EVAL 'expr'`.
    pub fn eval(&mut self, expr: &str) -> (r: &mut Self)
        ensures
            old(self).with(r, quoted("EVAL"@, expr@)),
            *final(self) == *final(r),
    {
        self.push(quote("EVAL", expr));
        self
    }

    /// Adds `PING`.
    pub fn ping(&mut self) -> (r: &mut Self)
        ensures
            old(self).with(r, "PING"@),
            *final(self) == *final(r),
    {
        self.push(String::from_str("PING"));
        self
    }

    /// Adds `SHUTDOWN`.
    pub fn shutdown(&mut self) -> (r: &mut Self)
        ensures
            old(self).with(r, "SHUTDOWN"@),
            *final(self) == *final(r),
    {
        self.push(String::from_str("SHUTDOWN"));
        self
    }

    /// The accumulated sub-commands as one command text, joined by ` |> `.
    pub fn command_text(&self) -> (text: String)
        ensures
            text@ == joined(self.texts()),
    {
        let mut text = String::new();
        let mut i: usize = 0;
        while i < self.commands.len()
            invariant
                i <= self.commands@.len(),
                text@ == joined(self.texts().subrange(0, i as int)),
            decreases self.commands@.len() - i,
        {
            if i > 0 {
                text.append(" |> ");
            }
            text.append(self.commands[i].as_str());
            proof {
                let done = self.texts().subrange(0, i + 1);
                assert(done.drop_last() =~= self.texts().subrange(0, i as int));
                assert(done.last() == self.commands@[i as int]@);
                assert(text@ =~= joined(done));
            }
            i += 1;
        }
        assert(self.texts().subrange(0, i as int) =~= self.texts());
        text
    }

    /// Joins the accumulated sub-commands and starts the resulting command
    /// on the executor. The list itself stays as it is.
    pub fn execute(&mut self, command: &mut Command) -> (r: Result<Request, Error>)
        ensures
            *final(self) == *old(self),
            final(command).pool() == old(command).pool().get().1,
            match old(command).pool().get().0 {
                Some(c) => r matches Ok(request) && request.connection == c && request.payload@
                    == command_payload(joined(old(self).texts())),
                None => r matches Err(e) && e@ == ErrorView::PoolExhausted,
            },
    {
        let text = self.command_text();
        command.execute_command(text.as_str())
    }

    /// Forgets the accumulated sub-commands without executing them.
    pub fn reset(&mut self)
        ensures
            final(self).texts() == Seq::<Seq<char>>::empty(),
    {
        self.commands.clear();
        assert(self.texts() =~= Seq::<Seq<char>>::empty());
    }
}

} // verus!
