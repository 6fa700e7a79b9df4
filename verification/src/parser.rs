//! Source code as the parser takes it, and the settings of a parser.
//!
//! Source code arrives as bytes. Before anything is parsed the bytes must be
//! valid UTF-8; where they are not, the parser reports the span of the first
//! offending bytes.

use bstr::ByteSlice;
use vstd::prelude::*;
use vstd::string::StringSliceAdditionalSpecFns;
use vstd::utf8::valid_utf8;

verus! {

/// A range of bytes in the source code, from `start` up to, but not
/// including, `end`.
#[derive(Debug, Clone, Copy, PartialEq, Eq, Structural)]
pub struct Span {
    pub start: usize,
    pub end: usize,
}

/// What `bstr::ByteSlice::to_str` reports of `bytes` that are not valid
/// UTF-8: the number of bytes before the first invalid sequence, and the
/// length of that sequence, or `None` if the bytes end in the middle of a
/// character.
pub uninterp spec fn first_invalid(bytes: Seq<u8>) -> (usize, Option<usize>);

/// `bstr::ByteSlice::to_str`: the bytes as a string slice if they are valid
/// UTF-8. Otherwise the error, handed out as the pair of what
/// `bstr::Utf8Error::valid_up_to` and `bstr::Utf8Error::error_len` return. As
/// many bytes as the first number says are valid UTF-8 from the start; the
/// second number, where there is one, counts the one to three invalid bytes
/// that follow them.
#[verifier::external_body]
fn to_str<'a>(raw: &'a [u8]) -> (r: Result<&'a str, (usize, Option<usize>)>)
    ensures
        match r {
            Ok(s) => valid_utf8(raw@) && s.spec_bytes() == raw@,
            Err(e) => {
                &&& !valid_utf8(raw@)
                &&& e == first_invalid(raw@)
                &&& e.0 <= raw@.len()
                &&& valid_utf8(raw@.subrange(0, e.0 as int))
                &&& e.1 matches Some(n) ==> 1 <= n <= 3 && e.0 + n <= raw@.len()
            },
        },
{
    raw.to_str().map_err(|e| (e.valid_up_to(), e.error_len()))
}

/// The error of source code that is not valid UTF-8.
#[derive(Debug, Clone, Copy, PartialEq, Eq)]
pub struct Utf8Error {
    valid_up_to: usize,
    error_len: Option<usize>,
}

impl Utf8Error {
    /// The invalid bytes lie within what a `usize` can index.
    #[verifier::type_invariant]
    spec fn in_bounds(&self) -> bool {
        self.error_len matches Some(n) ==> self.valid_up_to + n <= usize::MAX
    }

    /// The pair of the two numbers that make up the error.
    pub closed spec fn view(&self) -> (usize, Option<usize>) {
        (self.valid_up_to, self.error_len)
    }

    /// The number of bytes, from the start, that are valid UTF-8.
    pub fn valid_up_to(&self) -> (n: usize)
        ensures
            n == self@.0,
    {
        self.valid_up_to
    }

    /// The number of invalid bytes that follow the valid ones, or `None` if
    /// the source ends in the middle of a character.
    pub fn error_len(&self) -> (n: Option<usize>)
        ensures
            n == self@.1,
    {
        self.error_len
    }

    /// The span of the invalid bytes. It is empty if the source ends in the
    /// middle of a character.
    pub fn span(&self) -> (span: Span)
        ensures
            span == invalid_span(self@),
    {
        proof {
            use_type_invariant(self);
        }
        let span_start: usize = self.valid_up_to;
        let span_end: usize = if let Some(len) = self.error_len {
            span_start + len
        } else {
            span_start
        };
        Span { start: span_start, end: span_end }
    }
}

/// The span of the invalid bytes that `fault` tells of.
pub open spec fn invalid_span(fault: (usize, Option<usize>)) -> Span {
    Span {
        start: fault.0,
        end: match fault.1 {
            Some(len) => (fault.0 + len) as usize,
            None => fault.0,
        },
    }
}

/// Some source code, with an optional note of where it comes from.
///
/// The origin is usually the path of the file that held the code, but any
/// string will do. It is shown in error messages.
#[derive(Debug)]
pub struct SourceCode<'src> {
    /// The source code as it came. It may hold bytes that are not UTF-8.
    raw: &'src [u8],
    /// The source code as a string, once it is known to be valid UTF-8.
    valid: Option<&'src str>,
    /// Where the code comes from.
    origin: Option<String>,
}

/// The mathematical value of some source code.
pub struct SourceCodeView {
    /// The bytes of the code.
    pub raw: Seq<u8>,
    /// Whether the bytes are known to be valid UTF-8.
    pub validated: bool,
    /// Where the code comes from.
    pub origin: Option<Seq<char>>,
}

impl<'src> View for SourceCode<'src> {
    type V = SourceCodeView;

    closed spec fn view(&self) -> SourceCodeView {
        SourceCodeView {
            raw: self.raw@,
            validated: self.valid is Some,
            origin: match self.origin {
                Some(o) => Some(o@),
                None => None,
            },
        }
    }
}

impl<'src> SourceCode<'src> {
    /// The validated string, where there is one, holds the same bytes as the
    /// source.
    #[verifier::type_invariant]
    spec fn consistent(&self) -> bool {
        self.valid matches Some(s) ==> s.spec_bytes() == self.raw@
    }

    /// Sets a string that describes the origin of the source code.
    pub fn origin(self, origin: &str) -> (code: Self)
        ensures
            code@ == (SourceCodeView { origin: Some(origin@), ..self@ }),
    {
        proof {
            use_type_invariant(&self);
        }
        SourceCode { raw: self.raw, valid: self.valid, origin: Some(origin.to_owned()) }
    }

    /// The bytes of the source code.
    pub fn raw(&self) -> (raw: &'src [u8])
        ensures
            raw@ == self@.raw,
    {
        self.raw
    }

    /// The source code as a string, if it is known to be valid UTF-8.
    pub fn valid(&self) -> (valid: Option<&'src str>)
        ensures
            valid is Some == self@.validated,
            valid matches Some(s) ==> s.spec_bytes() == self@.raw,
    {
        proof {
            use_type_invariant(self);
        }
        self.valid
    }

    /// Where the source code comes from, if that was said.
    pub fn get_origin(&self) -> (origin: Option<&str>)
        ensures
            match origin {
                Some(o) => self@.origin == Some(o@),
                None => self@.origin is None,
            },
    {
        match &self.origin {
            Some(o) => Some(o.as_str()),
            None => None,
        }
    }

    /// Makes sure that the source code is valid UTF-8. If it is, the code is
    /// from then on known to be valid; if not, the error is returned and the
    /// code is left as it was.
    pub fn validate_utf8(&mut self) -> (r: Result<(), Utf8Error>)
        ensures
            r is Ok <==> valid_utf8(old(self)@.raw),
            r is Ok ==> final(self)@ == (SourceCodeView { validated: true, ..old(self)@ }),
            r matches Err(e) ==> {
                &&& final(self)@ == old(self)@
                &&& e@ == first_invalid(old(self)@.raw)
                &&& e@.0 <= old(self)@.raw.len()
                &&& valid_utf8(old(self)@.raw.subrange(0, e@.0 as int))
                &&& e@.1 matches Some(n) ==> 1 <= n <= 3 && e@.0 + n <= old(self)@.raw.len()
            },
    {
        proof {
            use_type_invariant(&*self);
        }
        match self.valid {
            Some(s) => {
                proof {
                    vstd::utf8::encode_utf8_valid_utf8(s@);
                }
                Ok(())
            },
            None => match to_str(self.raw) {
                Ok(s) => {
                    self.valid = Some(s);
                    Ok(())
                },
                Err(e) => {
                    proof {
                        assert(self.raw@.len() == self.raw.len());
                    }
                    Err(Utf8Error { valid_up_to: e.0, error_len: e.1 })
                },
            },
        }
    }

    /// Makes sure that the source code is valid UTF-8, as
    /// [`SourceCode::validate_utf8`] does, and returns the span of the first
    /// invalid bytes if it is not.
    pub fn check_utf8(&mut self) -> (r: Result<(), Span>)
        ensures
            r is Ok <==> valid_utf8(old(self)@.raw),
            r is Ok ==> final(self)@ == (SourceCodeView { validated: true, ..old(self)@ }),
            r matches Err(span) ==> {
                &&& final(self)@ == old(self)@
                &&& span == invalid_span(first_invalid(old(self)@.raw))
                &&& span.start <= span.end <= old(self)@.raw.len()
                &&& span.end - span.start <= 3
            },
    {
        proof {
            assert(self.raw@.len() == self.raw.len());
        }
        match self.validate_utf8() {
            Ok(()) => Ok(()),
            Err(err) => Err(err.span()),
        }
    }
}

/// Builds the reports of errors and warnings.
#[derive(Debug, Clone, Copy, PartialEq, Eq, Structural)]
pub struct ReportBuilder {
    with_colors: bool,
}

impl ReportBuilder {
    /// Whether the reports are in colors.
    pub closed spec fn colors(&self) -> bool {
        self.with_colors
    }

    /// A builder of reports without colors.
    pub fn new() -> (builder: Self)
        ensures
            !builder.colors(),
    {
        ReportBuilder { with_colors: false }
    }

    /// Says whether the reports are to be in colors.
    pub fn with_colors(&mut self, b: bool) -> (builder: &mut Self)
        ensures
            builder.colors() == b,
            *final(self) == *final(builder),
    {
        self.with_colors = b;
        self
    }

    /// Tells whether the reports are in colors.
    pub fn has_colors(&self) -> (b: bool)
        ensures
            b == self.colors(),
    {
        self.with_colors
    }
}

/// Receives source code and produces its syntax tree. It holds the
/// settings of a parse.
pub struct Parser<'a> {
    colorize_errors: bool,
    report_builder: Option<&'a ReportBuilder>,
}

impl<'a> Parser<'a> {
    /// Whether the parser was asked for error messages in colors.
    pub closed spec fn colorized(&self) -> bool {
        self.colorize_errors
    }

    /// The report builder that was given to the parser, if one was.
    pub closed spec fn builder(&self) -> Option<ReportBuilder> {
        match self.report_builder {
            Some(b) => Some(*b),
            None => None,
        }
    }

    /// Whether the error messages of this parser are in colors: a report
    /// builder that was given decides, else the parser's own setting.
    pub open spec fn colors(&self) -> bool {
        match self.builder() {
            Some(b) => b.colors(),
            None => self.colorized(),
        }
    }

    /// Creates a new parser: no colors, no report builder.
    pub fn new() -> (parser: Self)
        ensures
            !parser.colorized(),
            parser.builder() is None,
    {
        Parser { colorize_errors: false, report_builder: None }
    }

    /// Specifies whether the parser should produce colorful error messages.
    ///
    /// Such messages contain ANSI escape sequences that make them look nicer
    /// on consoles that know them. The default setting is `false`.
    pub fn colorize_errors(&mut self, b: bool) -> (parser: &mut Self)
        ensures
            parser.colorized() == b,
            parser.builder() == old(self).builder(),
            *final(self) == *final(parser),
    {
        self.colorize_errors = b;
        self
    }

    /// Sets the report builder used by the parser.
    ///
    /// Without one the parser makes its own. A report builder that is set
    /// decides whether the error messages are in colors, whatever was said
    /// with [`Parser::colorize_errors`].
    pub fn set_report_builder(&mut self, report_builder: &'a ReportBuilder) -> (parser: &mut Self)
        ensures
            parser.colorized() == old(self).colorized(),
            parser.builder() == Some(*report_builder),
            *final(self) == *final(parser),
    {
        self.report_builder = Some(report_builder);
        self
    }

    /// Tells whether the error messages of this parser are in colors.
    pub fn has_colors(&self) -> (b: bool)
        ensures
            b == self.colors(),
    {
        match self.report_builder {
            Some(builder) => builder.has_colors(),
            None => self.colorize_errors,
        }
    }
}

impl<'a> Default for Parser<'a> {
    fn default() -> (parser: Self)
        ensures
            !parser.colorized(),
            parser.builder() is None,
    {
        Parser::new()
    }
}

impl<'src> Clone for SourceCode<'src> {
    fn clone(&self) -> (code: Self)
        ensures
            code@ == self@,
    {
        proof {
            use_type_invariant(self);
        }
        SourceCode {
            raw: self.raw,
            valid: self.valid,
            origin: match &self.origin {
                Some(o) => Some(o.clone()),
                None => None,
            },
        }
    }
}

impl<'src> From<&'src str> for SourceCode<'src> {
    /// Source code from a string. A string is valid UTF-8, so the code needs
    /// no validation.
    fn from(src: &'src str) -> (code: Self)
        ensures
            code@ == (SourceCodeView { raw: src.spec_bytes(), validated: true, origin: None }),
    {
        SourceCode { raw: src.as_bytes(), valid: Some(src), origin: None }
    }
}

/// What `from` returns is stated by `from` itself, over the view.
impl<'src> vstd::std_specs::convert::FromSpecImpl<&'src str> for SourceCode<'src> {
    open spec fn obeys_from_spec() -> bool {
        false
    }

    open spec fn from_spec(src: &'src str) -> Self {
        arbitrary()
    }
}

impl<'src> From<&'src [u8]> for SourceCode<'src> {
    /// Source code from bytes, which may or may not be valid UTF-8.
    fn from(src: &'src [u8]) -> (code: Self)
        ensures
            code@ == (SourceCodeView { raw: src@, validated: false, origin: None }),
    {
        SourceCode { raw: src, valid: None, origin: None }
    }
}

/// What `from` returns is stated by `from` itself, over the view.
impl<'src> vstd::std_specs::convert::FromSpecImpl<&'src [u8]> for SourceCode<'src> {
    open spec fn obeys_from_spec() -> bool {
        false
    }

    open spec fn from_spec(src: &'src [u8]) -> Self {
        arbitrary()
    }
}

} // verus!
