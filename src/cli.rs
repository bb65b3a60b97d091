//! Command-line arguments: the port to listen on, or a request for help or
//! for the version.
use vstd::prelude::*;
use crate::text::{chars_of, same_text};

verus! {

pub const DEFAULT_PORT: u16 = 3000;

#[derive(Debug, PartialEq, Eq, Structural)]
pub struct Args {
    pub port: u16,
}

#[derive(Debug, PartialEq, Eq, Structural)]
pub enum ParseResult {
    Args(Args),
    Help,
    Version,
}

/// Why a port value was refused, as `u16`'s parser tells it.
#[derive(Clone, Copy, Debug, PartialEq, Eq, Structural)]
pub enum PortProblem {
    Empty,
    InvalidDigit,
    TooLarge,
}

/// Why the arguments were refused.
pub enum ParseError {
    /// `--port` without a value after it.
    MissingValue,
    /// A port value that is not a number from 0 to 65535.
    InvalidValue { value: String, problem: PortProblem },
    /// An argument that is not an option.
    Unexpected { arg: String },
}

/// What parsing the arguments comes to, as plain values.
pub enum Outcome {
    Parsed(ParseResult),
    MissingValue,
    InvalidValue(Seq<char>, PortProblem),
    Unexpected(Seq<char>),
}

pub open spec fn outcome_of(r: Result<ParseResult, ParseError>) -> Outcome {
    match r {
        Ok(p) => Outcome::Parsed(p),
        Err(ParseError::MissingValue) => Outcome::MissingValue,
        Err(ParseError::InvalidValue { value, problem }) => Outcome::InvalidValue(value@, problem),
        Err(ParseError::Unexpected { arg }) => Outcome::Unexpected(arg@),
    }
}

pub open spec fn is_digit(c: char) -> bool {
    '0' <= c && c <= '9'
}

/// The value of the decimal digits `d` read after the value `acc`.
pub open spec fn digits_value(d: Seq<char>, acc: nat) -> Result<u16, PortProblem>
    decreases d.len(),
{
    if d.len() == 0 {
        Ok(acc as u16)
    } else if !is_digit(d[0]) {
        Err(PortProblem::InvalidDigit)
    } else if acc * 10 + (d[0] as int - '0' as int) > 65535 {
        Err(PortProblem::TooLarge)
    } else {
        digits_value(d.drop_first(), (acc * 10 + (d[0] as int - '0' as int)) as nat)
    }
}

/// A port number written in decimal, with an optional leading `+`; the
/// first fault from the left decides the problem.
pub open spec fn port_value(s: Seq<char>) -> Result<u16, PortProblem> {
    if s.len() == 0 {
        Err(PortProblem::Empty)
    } else if s[0] == '+' {
        if s.len() == 1 {
            Err(PortProblem::InvalidDigit)
        } else {
            digits_value(s.drop_first(), 0)
        }
    } else {
        digits_value(s, 0)
    }
}

/// The outcome of the arguments `rest`, with `port` the port chosen so far.
pub open spec fn scan(rest: Seq<Seq<char>>, port: u16) -> Outcome
    decreases rest.len(),
{
    if rest.len() == 0 {
        Outcome::Parsed(ParseResult::Args(Args { port }))
    } else {
        let tok = rest[0];
        if tok == "-p"@ || tok == "--port"@ {
            if rest.len() < 2 || (rest[1].len() > 0 && rest[1][0] == '-') {
                Outcome::MissingValue
            } else {
                match port_value(rest[1]) {
                    Ok(p) => scan(rest.skip(2), p),
                    Err(e) => Outcome::InvalidValue(rest[1], e),
                }
            }
        } else if tok == "-V"@ || tok == "--version"@ {
            Outcome::Parsed(ParseResult::Version)
        } else if tok == "-h"@ || tok == "--help"@ {
            Outcome::Parsed(ParseResult::Help)
        } else {
            Outcome::Unexpected(tok)
        }
    }
}

/// The arguments as plain character sequences.
pub open spec fn tokens_view(t: Seq<String>) -> Seq<Seq<char>> {
    t.map_values(|s: String| s@)
}

/// The outcome of a whole argument list, program name first.
pub open spec fn args_outcome(args: Seq<String>) -> Outcome {
    scan(tokens_view(args.skip(1)), DEFAULT_PORT)
}

/// Reads a port number, as `u16`'s parser does.
pub fn parse_port(s: &str) -> (r: Result<u16, PortProblem>)
    ensures
        r == port_value(s@),
{
    let v = chars_of(s);
    if v.len() == 0 {
        return Err(PortProblem::Empty);
    }
    let mut i: usize = 0;
    if v[0] == '+' {
        if v.len() == 1 {
            return Err(PortProblem::InvalidDigit);
        }
        i = 1;
    }
    assert(port_value(s@) == digits_value(v@.skip(i as int), 0)) by {
        assert(v@.skip(1) =~= v@.drop_first());
        assert(v@.skip(0) =~= v@);
    };
    let mut acc: u32 = 0;
    while i < v.len()
        invariant
            i <= v@.len(),
            acc <= 65535,
            port_value(s@) == digits_value(v@.skip(i as int), acc as nat),
        decreases v@.len() - i,
    {
        let c = v[i];
        assert(v@.skip(i as int).drop_first() =~= v@.skip(i + 1));
        if !('0' <= c && c <= '9') {
            return Err(PortProblem::InvalidDigit);
        }
        let next = acc * 10 + (c as u32 - '0' as u32);
        if next > 65535 {
            return Err(PortProblem::TooLarge);
        }
        acc = next;
        i = i + 1;
    }
    Ok(acc as u16)
}

/// A cursor over the arguments.
pub struct ArgsParser<'a> {
    pub tokens: &'a [String],
    pub current: usize,
}

impl<'a> ArgsParser<'a> {
    pub fn new(tokens: &'a [String]) -> (r: Self)
        ensures
            r.tokens@ == tokens@,
            r.current == 0,
    {
        Self { tokens, current: 0 }
    }

    /// Moves past the current argument, unless at the end, and returns the
    /// argument just passed.
    pub fn advance(&mut self) -> (r: &'a String)
        requires
            old(self).tokens@.len() > 0,
            old(self).current <= old(self).tokens@.len(),
        ensures
            final(self).tokens == old(self).tokens,
            final(self).current == if old(self).current < old(self).tokens@.len() {
                old(self).current + 1
            } else {
                old(self).current as int
            },
            *r == old(self).tokens@[final(self).current - 1],
    {
        if !self.is_at_end() {
            self.current += 1;
        }
        self.previous()
    }

    pub fn is_at_end(&self) -> (r: bool)
        ensures
            r == (self.current >= self.tokens@.len()),
            self.tokens@.len() <= usize::MAX,
    {
        self.current >= self.tokens.len()
    }

    pub fn peek(&self) -> (r: &'a String)
        requires
            self.current < self.tokens@.len(),
        ensures
            *r == self.tokens@[self.current as int],
    {
        &self.tokens[self.current]
    }

    pub fn previous(&self) -> (r: &'a String)
        requires
            0 < self.current <= self.tokens@.len(),
        ensures
            *r == self.tokens@[self.current - 1],
    {
        &self.tokens[self.current - 1]
    }

    /// Reads the arguments from the cursor on.
    pub fn parse(&mut self) -> (r: Result<ParseResult, ParseError>)
        requires
            old(self).current <= old(self).tokens@.len(),
        ensures
            final(self).tokens == old(self).tokens,
            outcome_of(r) == scan(tokens_view(old(self).tokens@).skip(old(self).current as int), DEFAULT_PORT),
            final(self).current <= final(self).tokens@.len(),
            r matches Ok(ParseResult::Args(_)) ==> final(self).current == final(self).tokens@.len(),
    {
        let mut port = DEFAULT_PORT;
        let ghost all = tokens_view(self.tokens@);
        while !self.is_at_end()
            invariant
                self.tokens == old(self).tokens,
                all == tokens_view(self.tokens@),
                self.current <= self.tokens@.len(),
                scan(all.skip(old(self).current as int), DEFAULT_PORT) == scan(all.skip(self.current as int), port),
            decreases self.tokens@.len() - self.current,
        {
            let ghost rest = all.skip(self.current as int);
            let token = self.advance();
            assert(rest[0] == token@);
            if same_text(token.as_str(), "-p") || same_text(token.as_str(), "--port") {
                if self.is_at_end() {
                    return Err(ParseError::MissingValue);
                }
                let port_str = self.peek();
                assert(rest[1] == port_str@);
                let v = chars_of(port_str.as_str());
                if v.len() > 0 && v[0] == '-' {
                    return Err(ParseError::MissingValue);
                }
                match parse_port(port_str.as_str()) {
                    Ok(p) => port = p,
                    Err(problem) => {
                        return Err(ParseError::InvalidValue { value: port_str.clone(), problem });
                    },
                }
                self.advance();
                assert(all.skip(self.current as int) =~= rest.skip(2));
            } else if same_text(token.as_str(), "-V") || same_text(token.as_str(), "--version") {
                return Ok(ParseResult::Version);
            } else if same_text(token.as_str(), "-h") || same_text(token.as_str(), "--help") {
                return Ok(ParseResult::Help);
            } else {
                return Err(ParseError::Unexpected { arg: token.clone() });
            }
        }
        assert(all.skip(self.current as int) =~= Seq::<Seq<char>>::empty());
        Ok(ParseResult::Args(Args { port }))
    }
}

impl Args {
    /// The arguments of a run, program name first, on argument lists that
    /// ask neither for help nor for the version and that parse.
    pub fn parse(args: &[String]) -> (r: Args)
        requires
            args@.len() >= 1,
            args_outcome(args@) matches Outcome::Parsed(ParseResult::Args(_)),
        ensures
            args_outcome(args@) == Outcome::Parsed(ParseResult::Args(r)),
    {
        let mut parser = ArgsParser::new(&args[1..args.len()]);
        assert(tokens_view(parser.tokens@) =~= tokens_view(args@.skip(1)));
        assert(tokens_view(parser.tokens@).skip(0) =~= tokens_view(parser.tokens@));
        match parser.parse() {
            Ok(ParseResult::Args(a)) => a,
            _ => {
                assert(false);
                Args { port: DEFAULT_PORT }
            },
        }
    }
}

} // verus!
