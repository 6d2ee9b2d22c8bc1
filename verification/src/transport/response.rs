//! Reading responses.
use crate::bytes;
use crate::text;
use crate::transport::request;
use crate::transport::types;
use crate::transport::types::{
    DaneDecision, Header, HeaderView, OriginResponseHead, TransportError, TransportLimits,
};
use vstd::prelude::*;
use vstd::string::*;
use vstd::utf8::*;

verus! {

/// The most bytes that a line of a chunked body has.
pub const MAX_LINE_BYTES: usize = 8192;

/// The most bytes of a body that are read at once.
pub const READ_BLOCK_BYTES: usize = 16_384;

/// The status line and the headers of a response.
#[derive(Clone, Debug, PartialEq, Eq)]
pub struct ParsedHead {
    pub version: String,
    pub status: u16,
    pub headers: Vec<Header>,
}

pub struct HeadView {
    pub version: Seq<char>,
    pub status: u16,
    pub headers: Seq<HeaderView>,
}

impl View for ParsedHead {
    type V = HeadView;

    open spec fn view(&self) -> HeadView {
        HeadView {
            version: self.version@,
            status: self.status,
            headers: types::header_views(self.headers@),
        }
    }
}

/// The version and the status in a status line: its first two words.
pub open spec fn status_of(line: Seq<char>) -> Option<(Seq<char>, u16)> {
    let at = text::find(line, ' ');
    if at >= line.len() {
        None
    } else {
        let rest = line.skip(at as int + 1);
        match text::parsed_number(rest.take(text::find(rest, ' ') as int), 10, 65_535) {
            Some(status) => Some((line.take(at as int), status as u16)),
            None => None,
        }
    }
}

fn parse_status_line(line: &Vec<char>) -> (r: Option<(Vec<char>, u16)>)
    ensures
        match r {
            Some((version, status)) => status_of(line@) == Some((version@, status)),
            None => status_of(line@) is None,
        },
{
    let at: usize = text::find_char(line, ' ');
    if at >= line.len() {
        return None;
    }
    let version = text::chars_range(line, 0, at);
    assert(version@ =~= line@.take(at as int));
    let rest = text::chars_range(line, at + 1, line.len());
    assert(rest@ =~= line@.skip(at + 1));
    let end: usize = text::find_char(&rest, ' ');
    proof {
        text::lemma_find(rest@, ' ');
    }
    let word = text::chars_range(&rest, 0, end);
    assert(word@ =~= rest@.take(end as int));
    match text::parse_number(&word, 10, 65_535) {
        Some(status) => Some((version, status as u16)),
        None => None,
    }
}

/// A header line: a name and a value, parted by a colon.
pub open spec fn header_of(line: Seq<char>) -> Option<HeaderView> {
    let at = text::find(line, ':');
    if at >= line.len() {
        None
    } else {
        Some((text::trim(line.take(at as int)), text::trim(line.skip(at as int + 1))))
    }
}

fn parse_header_line(line: &Vec<char>) -> (r: Option<Header>)
    ensures
        match r {
            Some(header) => header_of(line@) == Some((header.0@, header.1@)),
            None => header_of(line@) is None,
        },
{
    let at: usize = text::find_char(line, ':');
    if at >= line.len() {
        return None;
    }
    let name = text::chars_range(line, 0, at);
    assert(name@ =~= line@.take(at as int));
    let value = text::chars_range(line, at + 1, line.len());
    assert(value@ =~= line@.skip(at + 1));
    let name = text::trimmed(&name);
    let value = text::trimmed(&value);
    Some((text::text_of(&name), text::text_of(&value)))
}

/// The headers in the lines from the second up to the `n`th, empty lines left
/// out. Where `strict`, a name must be a token.
pub open spec fn headers_of(lines: Seq<Seq<char>>, n: nat, strict: bool) -> Option<Seq<HeaderView>>
    decreases n,
{
    if n <= 1 {
        Some(Seq::empty())
    } else {
        let line = lines[n - 1];
        match headers_of(lines, (n - 1) as nat, strict) {
            None => None,
            Some(headers) => if line.len() == 0 {
                Some(headers)
            } else {
                match header_of(line) {
                    None => None,
                    Some(header) => if strict && !request::is_token(header.0) {
                        None
                    } else {
                        Some(headers.push(header))
                    },
                }
            },
        }
    }
}

proof fn lemma_headers_stay_refused(lines: Seq<Seq<char>>, n: nat, m: nat, strict: bool)
    requires
        n <= m,
        headers_of(lines, n, strict) is None,
    ensures
        headers_of(lines, m, strict) is None,
    decreases m,
{
    if n < m {
        lemma_headers_stay_refused(lines, n, (m - 1) as nat, strict);
    }
}

fn parse_header_lines(lines: &Vec<Vec<char>>, strict: bool) -> (r: Option<Vec<Header>>)
    requires
        lines@.len() > 0,
    ensures
        match r {
            Some(headers) => headers_of(text::views(lines@), lines@.len(), strict) == Some(
                types::header_views(headers@),
            ),
            None => headers_of(text::views(lines@), lines@.len(), strict) is None,
        },
{
    let ghost all = text::views(lines@);
    let mut headers: Vec<Header> = Vec::new();
    let mut i: usize = 1;
    assert(types::header_views(headers@) =~= Seq::empty());
    while i < lines.len()
        invariant
            1 <= i <= lines@.len(),
            all == text::views(lines@),
            headers_of(all, i as nat, strict) == Some(types::header_views(headers@)),
        decreases lines@.len() - i,
    {
        assert(all[i as int] == lines@[i as int]@);
        if lines[i].len() > 0 {
            match parse_header_line(&lines[i]) {
                Some(header) if !strict || request::is_http_token(header.0.as_str()) => {
                    let ghost before = types::header_views(headers@);
                    let ghost seen = (header.0@, header.1@);
                    headers.push(header);
                    assert(types::header_views(headers@) =~= before.push(seen));
                },
                _ => {
                    proof {
                        lemma_headers_stay_refused(all, (i + 1) as nat, lines@.len(), strict);
                    }
                    return None;
                },
            }
        }
        i = i + 1;
    }
    Some(headers)
}

pub open spec fn is_http_version(version: Seq<char>) -> bool {
    text::occurs_at(version, "HTTP/"@, 0)
}

/// A response head: a status line and header lines.
pub open spec fn head_of(head: Seq<char>, strict: bool) -> Option<HeadView> {
    let lines = text::lines(head);
    match (status_of(lines[0]), headers_of(lines, lines.len(), strict)) {
        (Some((version, status)), Some(headers)) => if is_http_version(version) {
            Some(HeadView { version, status, headers })
        } else {
            None
        },
        _ => None,
    }
}

fn parse_head_text(head: &str, strict: bool) -> (r: Option<ParsedHead>)
    ensures
        match r {
            Some(parsed) => head_of(head@, strict) == Some(parsed@),
            None => head_of(head@, strict) is None,
        },
{
    let cs = text::chars_of(head);
    let lines = text::split_lines(&cs);
    assert(text::views(lines@)[0] == lines@[0]@);
    assert(text::views(lines@).len() == lines@.len());
    let status_line = parse_status_line(&lines[0]);
    let headers = parse_header_lines(&lines, strict);
    let prefix = text::chars_of("HTTP/");
    match (status_line, headers) {
        (Some((version, status)), Some(headers)) => if text::has_at(&version, &prefix, 0) {
            Some(ParsedHead { version: text::text_of(&version), status, headers })
        } else {
            None
        },
        _ => None,
    }
}

/// The head of a response in the bytes before the empty line.
pub open spec fn response_head(head: Seq<u8>) -> Option<HeadView> {
    if valid_utf8(head) {
        match head_of(decode_utf8(head), true) {
            Some(parsed) => if 100 <= parsed.status <= 999 {
                Some(parsed)
            } else {
                None
            },
            None => None,
        }
    } else {
        None
    }
}

pub fn parse_response_head(head: &Vec<u8>) -> (r: Result<ParsedHead, TransportError>)
    ensures
        match r {
            Ok(parsed) => response_head(head@) == Some(parsed@),
            Err(error) => response_head(head@) is None && error
                == TransportError::MalformedResponse,
        },
{
    match bytes::utf8_text(head.as_slice()) {
        Some(head) => match parse_head_text(head.as_str(), true) {
            Some(parsed) if 100 <= parsed.status && parsed.status <= 999 => Ok(parsed),
            _ => Err(TransportError::MalformedResponse),
        },
        None => Err(TransportError::MalformedResponse),
    }
}

/// Whether a response to this request has no body, whatever its headers say.
pub open spec fn has_no_body(method: Seq<char>, status: u16) -> bool {
    text::same_ignoring_case(method, "HEAD"@) || 100 <= status < 200 || status == 204 || status
        == 304
}

pub fn response_has_no_body(request_method: &str, status: u16) -> (r: bool)
    ensures
        r == has_no_body(request_method@, status),
{
    text::eq_ignore_case(request_method, "HEAD") || (100 <= status && status < 200) || status == 204
        || status == 304
}

/// The length that the first `n` headers give the body; an error if one is no
/// number or two differ.
pub open spec fn length_of(headers: Seq<HeaderView>, n: nat) -> Result<Option<nat>, TransportError>
    decreases n,
{
    if n == 0 {
        Ok(None)
    } else {
        let header = headers[n - 1];
        match length_of(headers, (n - 1) as nat) {
            Err(error) => Err(error),
            Ok(known) => if !text::same_ignoring_case(header.0, "content-length"@) {
                Ok(known)
            } else {
                match text::parsed_number(header.1, 10, usize::MAX as nat) {
                    None => Err(TransportError::MalformedResponse),
                    Some(length) => if known is Some && known->0 != length {
                        Err(TransportError::MalformedResponse)
                    } else {
                        Ok(Some(length))
                    },
                }
            },
        }
    }
}

proof fn lemma_length_stays_refused(headers: Seq<HeaderView>, n: nat, m: nat)
    requires
        n <= m,
        length_of(headers, n) is Err,
    ensures
        length_of(headers, m) == length_of(headers, n),
    decreases m,
{
    if n < m {
        lemma_length_stays_refused(headers, n, (m - 1) as nat);
    }
}

pub open spec fn length_view(r: Result<Option<usize>, TransportError>) -> Result<
    Option<nat>,
    TransportError,
> {
    match r {
        Ok(Some(length)) => Ok(Some(length as nat)),
        Ok(None) => Ok(None),
        Err(error) => Err(error),
    }
}

pub fn content_length(headers: &Vec<Header>) -> (r: Result<Option<usize>, TransportError>)
    ensures
        length_view(r) == length_of(types::header_views(headers@), headers@.len()),
{
    let ghost all = types::header_views(headers@);
    let mut known: Option<usize> = None;
    let mut i: usize = 0;
    while i < headers.len()
        invariant
            i <= headers@.len(),
            all == types::header_views(headers@),
            length_of(all, i as nat) == length_view(Ok(known)),
        decreases headers@.len() - i,
    {
        assert(all[i as int] == (headers@[i as int].0@, headers@[i as int].1@));
        proof {
            if length_of(all, (i + 1) as nat) is Err {
                lemma_length_stays_refused(all, (i + 1) as nat, headers@.len());
            }
        }
        if text::eq_ignore_case(headers[i].0.as_str(), "content-length") {
            let value = text::chars_of(headers[i].1.as_str());
            let length: usize = match text::parse_number(&value, 10, usize::MAX as u64) {
                Some(length) => length as usize,
                None => {
                    return Err(TransportError::MalformedResponse);
                },
            };
            if let Some(existing) = known {
                if existing != length {
                    return Err(TransportError::MalformedResponse);
                }
            }
            known = Some(length);
        }
        i = i + 1;
    }
    Ok(known)
}

#[derive(Clone, Copy, Debug, PartialEq, Eq, Structural)]
pub enum TransferCoding {
    Chunked,
    Unsupported,
}

/// The codings in the first `n` parts of a value, after `before`; none if a
/// part is empty.
pub open spec fn codings_of_parts(before: Seq<TransferCoding>, parts: Seq<Seq<char>>, n: nat) -> Option<
    Seq<TransferCoding>,
>
    decreases n,
{
    if n == 0 {
        Some(before)
    } else {
        let part = text::trim(parts[n - 1]);
        match codings_of_parts(before, parts, (n - 1) as nat) {
            None => None,
            Some(codings) => if part.len() == 0 {
                None
            } else if text::same_ignoring_case(part, "chunked"@) {
                Some(codings.push(TransferCoding::Chunked))
            } else {
                Some(codings.push(TransferCoding::Unsupported))
            },
        }
    }
}

/// The codings that the first `n` headers name; none if one is empty.
pub open spec fn codings_of(headers: Seq<HeaderView>, n: nat) -> Option<Seq<TransferCoding>>
    decreases n,
{
    if n == 0 {
        Some(Seq::empty())
    } else {
        let header = headers[n - 1];
        match codings_of(headers, (n - 1) as nat) {
            None => None,
            Some(codings) => if text::same_ignoring_case(header.0, "transfer-encoding"@) {
                let parts = text::split(header.1, ',');
                codings_of_parts(codings, parts, parts.len())
            } else {
                Some(codings)
            },
        }
    }
}

proof fn lemma_parts_stay_refused(
    before: Seq<TransferCoding>,
    parts: Seq<Seq<char>>,
    n: nat,
    m: nat,
)
    requires
        n <= m,
        codings_of_parts(before, parts, n) is None,
    ensures
        codings_of_parts(before, parts, m) is None,
    decreases m,
{
    if n < m {
        lemma_parts_stay_refused(before, parts, n, (m - 1) as nat);
    }
}

proof fn lemma_codings_stay_refused(headers: Seq<HeaderView>, n: nat, m: nat)
    requires
        n <= m,
        codings_of(headers, n) is None,
    ensures
        codings_of(headers, m) is None,
    decreases m,
{
    if n < m {
        lemma_codings_stay_refused(headers, n, (m - 1) as nat);
    }
}

fn push_codings(codings: &mut Vec<TransferCoding>, value: &str) -> (r: bool)
    ensures
        codings_of_parts(old(codings)@, text::split(value@, ','), text::split(value@, ',').len())
            == (if r {
            Some(final(codings)@)
        } else {
            None
        }),
{
    let ghost before = codings@;
    let cs = text::chars_of(value);
    let parts = text::split_chars(&cs, ',');
    let ghost all = text::split(value@, ',');
    assert(text::views(parts@).len() == parts@.len());
    let mut i: usize = 0;
    while i < parts.len()
        invariant
            i <= parts@.len(),
            before == old(codings)@,
            all == text::split(value@, ','),
            text::views(parts@) == all,
            all.len() == parts@.len(),
            codings_of_parts(before, all, i as nat) == Some(codings@),
        decreases parts@.len() - i,
    {
        assert(text::views(parts@)[i as int] == parts@[i as int]@);
        let part = text::trimmed(&parts[i]);
        if part.len() == 0 {
            proof {
                lemma_parts_stay_refused(before, all, (i + 1) as nat, all.len());
            }
            return false;
        }
        let part = text::text_of(&part);
        if text::eq_ignore_case(part.as_str(), "chunked") {
            codings.push(TransferCoding::Chunked);
        } else {
            codings.push(TransferCoding::Unsupported);
        }
        i = i + 1;
    }
    true
}

/// What the headers say of the transfer: the codings, or none.
pub open spec fn coded(headers: Seq<HeaderView>) -> Result<
    Option<Seq<TransferCoding>>,
    TransportError,
> {
    match codings_of(headers, headers.len()) {
        None => Err(TransportError::MalformedResponse),
        Some(codings) => if codings.len() == 0 {
            Ok(None)
        } else {
            Ok(Some(codings))
        },
    }
}

pub open spec fn coded_view(r: Result<Option<Vec<TransferCoding>>, TransportError>) -> Result<
    Option<Seq<TransferCoding>>,
    TransportError,
> {
    match r {
        Ok(Some(codings)) => Ok(Some(codings@)),
        Ok(None) => Ok(None),
        Err(error) => Err(error),
    }
}

pub fn transfer_encoding(headers: &Vec<Header>) -> (r: Result<
    Option<Vec<TransferCoding>>,
    TransportError,
>)
    ensures
        coded_view(r) == coded(types::header_views(headers@)),
{
    let ghost all = types::header_views(headers@);
    let mut codings: Vec<TransferCoding> = Vec::new();
    let mut i: usize = 0;
    while i < headers.len()
        invariant
            i <= headers@.len(),
            all == types::header_views(headers@),
            codings_of(all, i as nat) == Some(codings@),
        decreases headers@.len() - i,
    {
        assert(all[i as int] == (headers@[i as int].0@, headers@[i as int].1@));
        if text::eq_ignore_case(headers[i].0.as_str(), "transfer-encoding") {
            if !push_codings(&mut codings, headers[i].1.as_str()) {
                proof {
                    lemma_codings_stay_refused(all, (i + 1) as nat, all.len());
                }
                return Err(TransportError::MalformedResponse);
            }
        }
        i = i + 1;
    }
    assert(all.len() == headers@.len());
    if codings.len() == 0 {
        Ok(None)
    } else {
        Ok(Some(codings))
    }
}

pub open spec fn asks_close(header: HeaderView) -> bool {
    text::same_ignoring_case(header.0, "connection"@) && request::has_token(header.1, "close"@)
}

/// Whether the connection ends with the response.
pub open spec fn closes(headers: Seq<HeaderView>) -> bool {
    exists|i: int| 0 <= i < headers.len() && asks_close(#[trigger] headers[i])
}

pub fn connection_close(headers: &Vec<Header>) -> (r: bool)
    ensures
        r == closes(types::header_views(headers@)),
{
    let ghost all = types::header_views(headers@);
    let mut i: usize = 0;
    while i < headers.len()
        invariant
            i <= headers@.len(),
            all == types::header_views(headers@),
            forall|j: int| 0 <= j < i ==> !asks_close(#[trigger] all[j]),
        decreases headers@.len() - i,
    {
        assert(all[i as int] == (headers@[i as int].0@, headers@[i as int].1@));
        if text::eq_ignore_case(headers[i].0.as_str(), "connection") && request::has_header_token(
            headers[i].1.as_str(),
            "close",
        ) {
            return true;
        }
        i = i + 1;
    }
    assert(all.len() == headers@.len());
    false
}

/// How the body of a response is delimited.
#[derive(Clone, Copy, Debug, PartialEq, Eq, Structural)]
pub enum BodyFraming {
    Empty,
    Chunked,
    Fixed(usize),
    UntilEof,
}

/// How the body of a response is delimited: a length and a transfer coding
/// together are ambiguous, and chunks are the only coding there is.
pub open spec fn framing_of(method: Seq<char>, head: HeadView) -> Result<
    BodyFraming,
    TransportError,
> {
    if has_no_body(method, head.status) {
        Ok(BodyFraming::Empty)
    } else {
        match (coded(head.headers), length_of(head.headers, head.headers.len())) {
            (Err(error), _) => Err(error),
            (_, Err(error)) => Err(error),
            (Ok(Some(codings)), Ok(length)) => if length is Some {
                Err(TransportError::MalformedResponse)
            } else if codings == seq![TransferCoding::Chunked] {
                Ok(BodyFraming::Chunked)
            } else {
                Err(TransportError::UnsupportedTransferEncoding)
            },
            (Ok(None), Ok(Some(length))) => Ok(BodyFraming::Fixed(length as usize)),
            (Ok(None), Ok(None)) => Ok(BodyFraming::UntilEof),
        }
    }
}

pub fn body_framing(request_method: &str, head: &ParsedHead) -> (r: Result<
    BodyFraming,
    TransportError,
>)
    ensures
        r == framing_of(request_method@, head@),
{
    if response_has_no_body(request_method, head.status) {
        return Ok(BodyFraming::Empty);
    }
    assert(head@.headers.len() == head.headers@.len());
    let length = content_length(&head.headers);
    match transfer_encoding(&head.headers) {
        Err(error) => Err(error),
        Ok(Some(codings)) => {
            let length = match length {
                Ok(length) => length,
                Err(error) => {
                    return Err(error);
                },
            };
            if length.is_some() {
                return Err(TransportError::MalformedResponse);
            }
            if codings.len() == 1 && codings[0] == TransferCoding::Chunked {
                assert(codings@ =~= seq![TransferCoding::Chunked]);
                Ok(BodyFraming::Chunked)
            } else {
                Err(TransportError::UnsupportedTransferEncoding)
            }
        },
        Ok(None) => match length {
            Ok(Some(length)) => Ok(BodyFraming::Fixed(length)),
            Ok(None) => Ok(BodyFraming::UntilEof),
            Err(error) => Err(error),
        },
    }
}

/// The length of a body so far with one more piece, within the limit.
pub open spec fn longer_body(current: int, piece: int, limit: int) -> Result<
    usize,
    TransportError,
> {
    if current + piece <= limit {
        Ok((current + piece) as usize)
    } else {
        Err(TransportError::ResponseTooLarge)
    }
}

pub fn checked_body_len(current: usize, chunk: usize, limit: usize) -> (r: Result<
    usize,
    TransportError,
>)
    ensures
        r == longer_body(current as int, chunk as int, limit as int),
{
    match current.checked_add(chunk) {
        Some(total) => if total <= limit {
            Ok(total)
        } else {
            Err(TransportError::ResponseTooLarge)
        },
        None => Err(TransportError::ResponseTooLarge),
    }
}

/// The size that a chunk's first line gives, before any extension.
pub open spec fn chunk_size_of(line: Seq<u8>) -> Option<nat> {
    if valid_utf8(line) {
        let cs = decode_utf8(line);
        text::parsed_number(
            text::trim(cs.take(text::find(cs, ';') as int)),
            16,
            usize::MAX as nat,
        )
    } else {
        None
    }
}

fn parse_chunk_size(line: &Vec<u8>) -> (r: Option<usize>)
    ensures
        match r {
            Some(size) => chunk_size_of(line@) == Some(size as nat),
            None => chunk_size_of(line@) is None,
        },
{
    let line = match bytes::utf8_text(line.as_slice()) {
        Some(line) => line,
        None => {
            return None;
        },
    };
    let cs = text::chars_of(line.as_str());
    let end: usize = text::find_char(&cs, ';');
    proof {
        text::lemma_find(cs@, ';');
    }
    let size = text::chars_range(&cs, 0, end);
    assert(size@ =~= cs@.take(end as int));
    let size = text::trimmed(&size);
    match text::parse_number(&size, 16, usize::MAX as u64) {
        Some(size) => Some(size as usize),
        None => None,
    }
}

/// What of a response is read next.
#[derive(Clone, Copy, Debug, PartialEq, Eq, Structural)]
pub enum Phase {
    Head,
    Fixed(usize),
    UntilEof,
    ChunkSize,
    ChunkData(usize),
    ChunkCr,
    ChunkLf(u8),
    Trailer,
    Done,
}

/// How many bytes may be read next, at most.
pub open spec fn wanted(phase: Phase) -> usize {
    match phase {
        Phase::Fixed(left) | Phase::ChunkData(left) => if left < READ_BLOCK_BYTES {
            left
        } else {
            READ_BLOCK_BYTES
        },
        Phase::UntilEof => READ_BLOCK_BYTES,
        Phase::Done => 0,
        _ => 1,
    }
}

/// Reads a response from the bytes of a connection.
#[derive(Clone, Debug, PartialEq, Eq)]
pub struct ResponseReader {
    pub limits: TransportLimits,
    pub method: String,
    pub phase: Phase,
    pub line: Vec<u8>,
    pub head: Option<ParsedHead>,
    pub self_delimited: bool,
    pub total: usize,
}

pub struct ReaderView {
    pub limits: TransportLimits,
    pub method: Seq<char>,
    pub phase: Phase,
    pub line: Seq<u8>,
    pub head: Option<HeadView>,
    pub self_delimited: bool,
    pub total: usize,
}

impl View for ResponseReader {
    type V = ReaderView;

    open spec fn view(&self) -> ReaderView {
        ReaderView {
            limits: self.limits,
            method: self.method@,
            phase: self.phase,
            line: self.line@,
            head: match self.head {
                Some(head) => Some(head@),
                None => None,
            },
            self_delimited: self.self_delimited,
            total: self.total,
        }
    }
}

/// Bytes that end in an empty line.
pub open spec fn ends_head(bytes: Seq<u8>) -> bool {
    let n = bytes.len() as int;
    n >= 4 && bytes[n - 4] == 13 && bytes[n - 3] == 10 && bytes[n - 2] == 13 && bytes[n - 1] == 10
}

/// Bytes that end in a line end.
pub open spec fn ends_line(bytes: Seq<u8>) -> bool {
    let n = bytes.len() as int;
    n >= 2 && bytes[n - 2] == 13 && bytes[n - 1] == 10
}

fn has_head_end(bytes: &Vec<u8>) -> (r: bool)
    ensures
        r == ends_head(bytes@),
{
    let n: usize = bytes.len();
    n >= 4 && bytes[n - 4] == 13 && bytes[n - 3] == 10 && bytes[n - 2] == 13 && bytes[n - 1] == 10
}

fn has_line_end(bytes: &Vec<u8>) -> (r: bool)
    ensures
        r == ends_line(bytes@),
{
    let n: usize = bytes.len();
    n >= 2 && bytes[n - 2] == 13 && bytes[n - 1] == 10
}

/// Why reading fails: the connection ended too early in a body, or the response
/// is refused.
pub enum Fault {
    CutShort,
    Refused(TransportError),
}

/// What a reader is after some bytes, and the bytes of the body among them.
pub type Fed = Result<(ReaderView, Seq<u8>), Fault>;

pub open spec fn is_fault(error: TransportError, fault: Fault) -> bool {
    match fault {
        Fault::CutShort => cut_short(error),
        Fault::Refused(reason) => error == reason,
    }
}

/// The failure to read as much as was announced.
pub open spec fn cut_short(error: TransportError) -> bool {
    error matches TransportError::Io(reason) && reason@ == "failed to fill whole buffer"@
}

/// The reader once the head is complete.
pub open spec fn head_read(reader: ReaderView, head: Seq<u8>) -> Result<
    ReaderView,
    TransportError,
> {
    match response_head(head) {
        None => Err(TransportError::MalformedResponse),
        Some(parsed) => match framing_of(reader.method, parsed) {
            Err(error) => Err(error),
            Ok(framing) => {
                let known = ReaderView { head: Some(parsed), line: Seq::empty(), ..reader };
                match framing {
                    BodyFraming::Empty => Ok(
                        ReaderView { phase: Phase::Done, self_delimited: true, ..known },
                    ),
                    BodyFraming::Chunked => Ok(
                        ReaderView { phase: Phase::ChunkSize, self_delimited: true, ..known },
                    ),
                    BodyFraming::Fixed(length) => if length > reader.limits.max_response_body_bytes {
                        Err(TransportError::ResponseTooLarge)
                    } else {
                        Ok(
                            ReaderView {
                                phase: if length == 0 {
                                    Phase::Done
                                } else {
                                    Phase::Fixed(length)
                                },
                                self_delimited: true,
                                ..known
                            },
                        )
                    },
                    BodyFraming::UntilEof => Ok(
                        ReaderView { phase: Phase::UntilEof, self_delimited: false, ..known },
                    ),
                }
            },
        },
    }
}

/// The reader once the first line of a chunk is complete.
pub open spec fn size_read(reader: ReaderView, line: Seq<u8>) -> Result<
    ReaderView,
    TransportError,
> {
    let fresh = ReaderView { line: Seq::empty(), ..reader };
    match chunk_size_of(line) {
        None => Err(TransportError::MalformedResponse),
        Some(size) => if size == 0 {
            Ok(ReaderView { phase: Phase::Trailer, ..fresh })
        } else {
            match longer_body(
                reader.total as int,
                size as int,
                reader.limits.max_response_body_bytes as int,
            ) {
                Err(error) => Err(error),
                Ok(total) => Ok(
                    ReaderView { phase: Phase::ChunkData(size as usize), total, ..fresh },
                ),
            }
        },
    }
}

/// The reader once a trailer line is complete: an empty one is the last.
pub open spec fn trailer_read(reader: ReaderView, line: Seq<u8>) -> Result<
    ReaderView,
    TransportError,
> {
    let fresh = ReaderView { line: Seq::empty(), ..reader };
    if !valid_utf8(line) {
        Err(TransportError::MalformedResponse)
    } else if line.len() == 0 {
        Ok(ReaderView { phase: Phase::Done, ..fresh })
    } else {
        Ok(fresh)
    }
}

/// The reader after one more byte of a line or of the head.
pub open spec fn line_grown(reader: ReaderView, byte: u8) -> Result<ReaderView, TransportError> {
    let line = reader.line.push(byte);
    match reader.phase {
        Phase::Head => if ends_head(line) {
            head_read(reader, line.take(line.len() - 4))
        } else if line.len() >= reader.limits.max_response_header_bytes {
            Err(TransportError::ResponseTooLarge)
        } else {
            Ok(ReaderView { line, ..reader })
        },
        _ => if ends_line(line) {
            let content = line.take(line.len() - 2);
            if reader.phase is ChunkSize {
                size_read(reader, content)
            } else {
                trailer_read(reader, content)
            }
        } else if line.len() >= MAX_LINE_BYTES {
            Err(TransportError::ResponseTooLarge)
        } else {
            Ok(ReaderView { line, ..reader })
        },
    }
}

/// What a reader makes of the next bytes, where no bytes means that the
/// connection has ended.
#[verifier::opaque]
pub open spec fn fed(reader: ReaderView, input: Seq<u8>) -> Fed {
    match reader.phase {
        Phase::Head | Phase::ChunkSize | Phase::Trailer => if input.len() == 0 {
            Err(Fault::Refused(TransportError::MalformedResponse))
        } else {
            match line_grown(reader, input[0]) {
                Ok(next) => Ok((next, Seq::empty())),
                Err(error) => Err(Fault::Refused(error)),
            }
        },
        Phase::Fixed(left) => if input.len() == 0 {
            Err(Fault::CutShort)
        } else {
            Ok(
                (
                    ReaderView {
                        phase: if input.len() == left {
                            Phase::Done
                        } else {
                            Phase::Fixed((left - input.len()) as usize)
                        },
                        total: (reader.total + input.len()) as usize,
                        ..reader
                    },
                    input,
                ),
            )
        },
        Phase::UntilEof => if input.len() == 0 {
            Ok((ReaderView { phase: Phase::Done, ..reader }, Seq::empty()))
        } else {
            match longer_body(
                reader.total as int,
                input.len() as int,
                reader.limits.max_response_body_bytes as int,
            ) {
                Ok(total) => Ok((ReaderView { total, ..reader }, input)),
                Err(error) => Err(Fault::Refused(error)),
            }
        },
        Phase::ChunkData(left) => if input.len() == 0 {
            Err(Fault::CutShort)
        } else {
            Ok(
                (
                    ReaderView {
                        phase: if input.len() == left {
                            Phase::ChunkCr
                        } else {
                            Phase::ChunkData((left - input.len()) as usize)
                        },
                        ..reader
                    },
                    input,
                ),
            )
        },
        Phase::ChunkCr => if input.len() == 0 {
            Err(Fault::CutShort)
        } else {
            Ok((ReaderView { phase: Phase::ChunkLf(input[0]), ..reader }, Seq::empty()))
        },
        Phase::ChunkLf(first) => if input.len() == 0 {
            Err(Fault::CutShort)
        } else if first == 13 && input[0] == 10 {
            Ok((ReaderView { phase: Phase::ChunkSize, ..reader }, Seq::empty()))
        } else {
            Err(Fault::Refused(TransportError::MalformedResponse))
        },
        Phase::Done => Ok((reader, Seq::empty())),
    }
}

/// Whether a reader and its result are what is expected of them.
pub open spec fn is_fed(
    before: ReaderView,
    reader: ResponseReader,
    r: Result<Vec<u8>, TransportError>,
    expected: Fed,
) -> bool {
    match (r, expected) {
        (Ok(body), Ok((next, out))) => reader@ == next && body@ == out,
        (Err(error), Err(fault)) => is_fault(error, fault) && reader@ == before,
        _ => false,
    }
}

/// A body of a fixed length never outgrows the limit, and there is no body
/// before the head.
pub open spec fn reader_wf(reader: ReaderView) -> bool {
    match reader.phase {
        Phase::Head => reader.total == 0,
        Phase::Fixed(left) => 0 < left && reader.total + left
            <= reader.limits.max_response_body_bytes,
        Phase::ChunkData(left) => 0 < left,
        _ => true,
    }
}

/// A reader before the first byte.
pub open spec fn fresh_reader(limits: TransportLimits, method: Seq<char>) -> ReaderView {
    ReaderView {
        limits,
        method,
        phase: Phase::Head,
        line: Seq::empty(),
        head: None,
        self_delimited: false,
        total: 0,
    }
}

impl ResponseReader {
    /// A reader for the response to a request with the given method. No head
    /// fits into no bytes.
    pub fn new(limits: TransportLimits, method: &str) -> (r: Result<Self, TransportError>)
        ensures
            match r {
                Ok(reader) => limits.max_response_header_bytes > 0 && reader@ == fresh_reader(
                    limits,
                    method@,
                ),
                Err(error) => limits.max_response_header_bytes == 0 && error
                    == TransportError::ResponseTooLarge,
            },
    {
        if limits.max_response_header_bytes == 0 {
            return Err(TransportError::ResponseTooLarge);
        }
        Ok(
            ResponseReader {
                limits,
                method: method.to_owned(),
                phase: Phase::Head,
                line: Vec::new(),
                head: None,
                self_delimited: false,
                total: 0,
            },
        )
    }

    /// How many bytes to read next, at most; none once the response is
    /// complete.
    pub fn want(&self) -> (r: usize)
        ensures
            r == wanted(self@.phase),
    {
        match self.phase {
            Phase::Fixed(left) | Phase::ChunkData(left) => if left < READ_BLOCK_BYTES {
                left
            } else {
                READ_BLOCK_BYTES
            },
            Phase::UntilEof => READ_BLOCK_BYTES,
            Phase::Done => 0,
            _ => 1,
        }
    }

    fn head_complete(&mut self) -> (r: Result<Vec<u8>, TransportError>)
        requires
            old(self)@.line.len() >= 4,
            old(self)@.total == 0,
        ensures
            match head_read(old(self)@, old(self)@.line.take(old(self)@.line.len() - 4)) {
                Ok(next) => r is Ok && r->Ok_0@.len() == 0 && final(self)@ == next && reader_wf(
                    next,
                ),
                Err(error) => r == Err::<Vec<u8>, _>(error) && final(self)@ == old(self)@,
            },
    {
        let end: usize = self.line.len() - 4;
        let head = bytes::bytes_range(&self.line, 0, end);
        assert(head@ =~= self.line@.take(end as int));
        let parsed = match parse_response_head(&head) {
            Ok(parsed) => parsed,
            Err(error) => {
                return Err(error);
            },
        };
        let framing = match body_framing(self.method.as_str(), &parsed) {
            Ok(framing) => framing,
            Err(error) => {
                return Err(error);
            },
        };
        if let BodyFraming::Fixed(length) = framing {
            if length > self.limits.max_response_body_bytes {
                return Err(TransportError::ResponseTooLarge);
            }
        }
        self.line = Vec::new();
        self.head = Some(parsed);
        match framing {
            BodyFraming::Empty => {
                self.phase = Phase::Done;
                self.self_delimited = true;
            },
            BodyFraming::Chunked => {
                self.phase = Phase::ChunkSize;
                self.self_delimited = true;
            },
            BodyFraming::Fixed(length) => {
                self.phase = if length == 0 {
                    Phase::Done
                } else {
                    Phase::Fixed(length)
                };
                self.self_delimited = true;
            },
            BodyFraming::UntilEof => {
                self.phase = Phase::UntilEof;
                self.self_delimited = false;
            },
        }
        Ok(Vec::new())
    }

    fn line_complete(&mut self) -> (r: Result<Vec<u8>, TransportError>)
        requires
            old(self)@.line.len() >= 2,
            old(self)@.phase is ChunkSize || old(self)@.phase is Trailer,
        ensures
            match (if old(self)@.phase is ChunkSize {
                size_read(old(self)@, old(self)@.line.take(old(self)@.line.len() - 2))
            } else {
                trailer_read(old(self)@, old(self)@.line.take(old(self)@.line.len() - 2))
            }) {
                Ok(next) => r is Ok && r->Ok_0@.len() == 0 && final(self)@ == next && reader_wf(
                    next,
                ),
                Err(error) => r == Err::<Vec<u8>, _>(error) && final(self)@ == old(self)@,
            },
    {
        let end: usize = self.line.len() - 2;
        let line = bytes::bytes_range(&self.line, 0, end);
        assert(line@ =~= self.line@.take(end as int));
        if self.phase == Phase::ChunkSize {
            let size: usize = match parse_chunk_size(&line) {
                Some(size) => size,
                None => {
                    return Err(TransportError::MalformedResponse);
                },
            };
            if size == 0 {
                self.line = Vec::new();
                self.phase = Phase::Trailer;
                return Ok(Vec::new());
            }
            match checked_body_len(self.total, size, self.limits.max_response_body_bytes) {
                Ok(total) => {
                    self.line = Vec::new();
                    self.total = total;
                    self.phase = Phase::ChunkData(size);
                    Ok(Vec::new())
                },
                Err(error) => Err(error),
            }
        } else {
            if bytes::utf8_text(line.as_slice()).is_none() {
                return Err(TransportError::MalformedResponse);
            }
            self.line = Vec::new();
            if line.len() == 0 {
                self.phase = Phase::Done;
            }
            Ok(Vec::new())
        }
    }

    fn grow_line(&mut self, byte: u8) -> (r: Result<Vec<u8>, TransportError>)
        requires
            old(self)@.phase is Head || old(self)@.phase is ChunkSize || old(self)@.phase
                is Trailer,
            old(self)@.phase is Head ==> old(self)@.total == 0,
        ensures
            match line_grown(old(self)@, byte) {
                Ok(next) => r is Ok && r->Ok_0@.len() == 0 && final(self)@ == next && reader_wf(
                    next,
                ),
                Err(error) => r == Err::<Vec<u8>, _>(error) && final(self)@ == old(self)@,
            },
    {
        let ghost start = self@;
        self.line.push(byte);
        let ghost grown = ReaderView { line: start.line.push(byte), ..start };
        assert(self@ == grown);
        if self.phase == Phase::Head {
            if has_head_end(&self.line) {
                proof {
                    let end = grown.line.take(grown.line.len() - 4);
                    assert(head_read(grown, end) == head_read(start, end));
                }
                let r = self.head_complete();
                if r.is_err() {
                    self.line.pop();
                    assert(self@.line =~= start.line);
                }
                return r;
            }
            if self.line.len() >= self.limits.max_response_header_bytes {
                self.line.pop();
                assert(self@.line =~= start.line);
                return Err(TransportError::ResponseTooLarge);
            }
        } else {
            if has_line_end(&self.line) {
                proof {
                    let end = grown.line.take(grown.line.len() - 2);
                    assert(size_read(grown, end) == size_read(start, end));
                    assert(trailer_read(grown, end) == trailer_read(start, end));
                }
                let r = self.line_complete();
                if r.is_err() {
                    self.line.pop();
                    assert(self@.line =~= start.line);
                }
                return r;
            }
            if self.line.len() >= MAX_LINE_BYTES {
                self.line.pop();
                assert(self@.line =~= start.line);
                return Err(TransportError::ResponseTooLarge);
            }
        }
        Ok(Vec::new())
    }

    /// Takes the next bytes of the connection, no more than wanted; none means
    /// that the connection has ended. Gives the bytes of the body among them. An
    /// error leaves the reader as it was.
    pub fn feed(&mut self, input: Vec<u8>) -> (r: Result<Vec<u8>, TransportError>)
        requires
            input@.len() <= wanted(old(self)@.phase),
            reader_wf(old(self)@),
        ensures
            is_fed(old(self)@, *final(self), r, fed(old(self)@, input@)),
            r is Ok ==> reader_wf(final(self)@),
    {
        proof {
            reveal(fed);
        }
        match self.phase {
            Phase::Head | Phase::ChunkSize | Phase::Trailer => {
                if input.len() == 0 {
                    return Err(TransportError::MalformedResponse);
                }
                let r = self.grow_line(input[0]);
                assert(r is Ok ==> r->Ok_0@ =~= Seq::empty());
                r
            },
            Phase::Fixed(left) => {
                if input.len() == 0 {
                    return Err(TransportError::Io("failed to fill whole buffer".to_owned()));
                }
                self.total = self.total + input.len();
                self.phase = if input.len() == left {
                    Phase::Done
                } else {
                    Phase::Fixed(left - input.len())
                };
                Ok(input)
            },
            Phase::UntilEof => {
                if input.len() == 0 {
                    self.phase = Phase::Done;
                    let none: Vec<u8> = Vec::new();
                    assert(none@ =~= Seq::empty());
                    return Ok(none);
                }
                match checked_body_len(
                    self.total,
                    input.len(),
                    self.limits.max_response_body_bytes,
                ) {
                    Ok(total) => {
                        self.total = total;
                        Ok(input)
                    },
                    Err(error) => Err(error),
                }
            },
            Phase::ChunkData(left) => {
                if input.len() == 0 {
                    return Err(TransportError::Io("failed to fill whole buffer".to_owned()));
                }
                self.phase = if input.len() == left {
                    Phase::ChunkCr
                } else {
                    Phase::ChunkData(left - input.len())
                };
                Ok(input)
            },
            Phase::ChunkCr => {
                if input.len() == 0 {
                    return Err(TransportError::Io("failed to fill whole buffer".to_owned()));
                }
                self.phase = Phase::ChunkLf(input[0]);
                let none: Vec<u8> = Vec::new();
                assert(none@ =~= Seq::empty());
                Ok(none)
            },
            Phase::ChunkLf(first) => {
                if input.len() == 0 {
                    return Err(TransportError::Io("failed to fill whole buffer".to_owned()));
                }
                if first == 13 && input[0] == 10 {
                    self.phase = Phase::ChunkSize;
                    let none: Vec<u8> = Vec::new();
                    assert(none@ =~= Seq::empty());
                    Ok(none)
                } else {
                    Err(TransportError::MalformedResponse)
                }
            },
            Phase::Done => {
                let none: Vec<u8> = Vec::new();
                assert(none@ =~= Seq::empty());
                Ok(none)
            },
        }
    }

    /// The head of a response that is complete, and whether the connection can
    /// carry another.
    pub fn finish(self) -> (r: Option<(OriginResponseHead, bool)>)
        ensures
            match r {
                Some((head, reusable)) => {
                    &&& self@.phase is Done
                    &&& self@.head is Some
                    &&& head.status == self@.head->0.status
                    &&& types::header_views(head.headers@) == self@.head->0.headers
                    &&& head.body_len == self@.total
                    &&& head.dane_decision == DaneDecision::NoTlsa
                    &&& head.tls_inspection is None
                    &&& reusable == can_reuse(self@)
                },
                None => !(self@.phase is Done) || self@.head is None,
            },
    {
        if self.phase != Phase::Done {
            return None;
        }
        match self.head {
            Some(head) => {
                let reusable = text::eq_ignore_case(head.version.as_str(), "HTTP/1.1")
                    && self.self_delimited && !connection_close(&head.headers);
                Some(
                    (
                        OriginResponseHead {
                            status: head.status,
                            headers: head.headers,
                            body_len: self.total,
                            dane_decision: DaneDecision::NoTlsa,
                            tls_inspection: None,
                        },
                        reusable,
                    ),
                )
            },
            None => None,
        }
    }
}

/// Whether a connection can carry another response: HTTP/1.1, a body that
/// ended by itself, and no word that the connection closes.
pub open spec fn can_reuse(reader: ReaderView) -> bool {
    reader.head is Some && text::same_ignoring_case(reader.head->0.version, "HTTP/1.1"@)
        && reader.self_delimited && !closes(reader.head->0.headers)
}

/// What reading to the end of a response comes to: the reader, the body, and
/// what of the bytes is left.
pub type Read = Result<(ReaderView, Seq<u8>, Seq<u8>), Fault>;

/// A body with more in front of it.
pub open spec fn prepended(out: Seq<u8>, read: Read) -> Read {
    match read {
        Ok((reader, body, rest)) => Ok((reader, out + body, rest)),
        Err(fault) => Err(fault),
    }
}

/// The number of bytes that are read next of those there are.
pub open spec fn taken(phase: Phase, available: nat) -> nat {
    if wanted(phase) < available {
        wanted(phase) as nat
    } else {
        available
    }
}

/// What reading a connection whose bytes are `stream` comes to.
pub open spec fn run(reader: ReaderView, stream: Seq<u8>) -> Read
    decreases stream.len(),
{
    if reader.phase is Done {
        Ok((reader, Seq::empty(), stream))
    } else {
        let k = taken(reader.phase, stream.len());
        match fed(reader, stream.take(k as int)) {
            Err(fault) => Err(fault),
            Ok((next, out)) => if k == 0 {
                Ok((next, out, stream))
            } else {
                prepended(out, run(next, stream.skip(k as int)))
            },
        }
    }
}

/// Reads the response at the front of `stream`, after which the connection
/// ends: its head, its body, how many bytes it has, and whether the connection
/// can carry another.
#[verifier::spinoff_prover]
#[verifier::rlimit(40)]
pub fn parse_http_response(stream: &Vec<u8>, limits: TransportLimits, request_method: &str) -> (r:
    Result<(OriginResponseHead, Vec<u8>, usize, bool), TransportError>)
    ensures
        limits.max_response_header_bytes == 0 ==> r == Err::<
            (OriginResponseHead, Vec<u8>, usize, bool),
            _,
        >(TransportError::ResponseTooLarge),
        limits.max_response_header_bytes > 0 ==> match (
            r,
            run(fresh_reader(limits, request_method@), stream@),
        ) {
            (Ok((head, body, used, reusable)), Ok((reader, expected, rest))) => {
                &&& reader.head is Some
                &&& head.status == reader.head->0.status
                &&& types::header_views(head.headers@) == reader.head->0.headers
                &&& head.body_len == reader.total
                &&& head.dane_decision == DaneDecision::NoTlsa
                &&& head.tls_inspection is None
                &&& body@ == expected
                &&& rest == stream@.skip(used as int)
                &&& used <= stream@.len()
                &&& reusable == can_reuse(reader)
            },
            (Err(error), Err(fault)) => is_fault(error, fault),
            _ => false,
        },
{
    let mut reader = match ResponseReader::new(limits, request_method) {
        Ok(reader) => reader,
        Err(error) => {
            return Err(error);
        },
    };
    let ghost start = reader@;
    let ghost whole = run(start, stream@);
    let mut body: Vec<u8> = Vec::new();
    let mut used: usize = 0;
    assert(stream@.skip(0) =~= stream@);
    assert(prepended(body@, whole) == whole) by {
        if whole is Ok {
            assert(body@ + whole->Ok_0.1 =~= whole->Ok_0.1);
        }
    }
    while reader.want() > 0
        invariant
            used <= stream@.len(),
            limits.max_response_header_bytes > 0,
            start == fresh_reader(limits, request_method@),
            whole == run(start, stream@),
            reader_wf(reader@),
            reader_done_has_head(reader@),
            prepended(body@, run(reader@, stream@.skip(used as int))) == whole,
        ensures
            used <= stream@.len(),
            reader@.phase is Done,
            reader_done_has_head(reader@),
            prepended(body@, run(reader@, stream@.skip(used as int))) == whole,
        decreases stream@.len() - used, wanted(reader@.phase),
    {
        let ghost before = reader@;
        let ghost rest = stream@.skip(used as int);
        let wanted_bytes: usize = reader.want();
        let available: usize = stream.len() - used;
        let count: usize = if wanted_bytes < available {
            wanted_bytes
        } else {
            available
        };
        let input = bytes::bytes_range(stream, used, used + count);
        assert(input@ =~= rest.take(count as int));
        assert(count == taken(before.phase, rest.len()));
        let mut piece = match reader.feed(input) {
            Ok(piece) => piece,
            Err(error) => {
                return Err(error);
            },
        };
        proof {
            lemma_feeding_keeps_head(before, rest.take(count as int));
        }
        proof {
            lemma_run_step(before, rest, body@);
            assert(rest.skip(count as int) =~= stream@.skip(used + count));
        }
        body.append(&mut piece);
        used = used + count;
    }
    assert(body@ + Seq::<u8>::empty() =~= body@);
    match reader.finish() {
        Some((head, reusable)) => Ok((head, body, used, reusable)),
        None => Err(TransportError::MalformedResponse),
    }
}

/// A reader past the head knows it.
pub open spec fn reader_done_has_head(reader: ReaderView) -> bool {
    !(reader.phase is Head) ==> reader.head is Some
}

/// One step of reading, with the body so far.
proof fn lemma_run_step(reader: ReaderView, stream: Seq<u8>, so_far: Seq<u8>)
    requires
        !(reader.phase is Done),
        reader_wf(reader),
    ensures
        ({
            let k = taken(reader.phase, stream.len());
            match fed(reader, stream.take(k as int)) {
                Err(fault) => prepended(so_far, run(reader, stream)) == Err::<
                    (ReaderView, Seq<u8>, Seq<u8>),
                    Fault,
                >(fault),
                Ok((next, out)) => {
                    &&& prepended(so_far, run(reader, stream)) == prepended(
                        so_far + out,
                        run(next, stream.skip(k as int)),
                    )
                    &&& k == 0 ==> next.phase is Done
                },
            }
        }),
{
    let k = taken(reader.phase, stream.len());
    match fed(reader, stream.take(k as int)) {
        Err(fault) => {},
        Ok((next, out)) => {
            if k == 0 {
                assert(next.phase is Done) by {
                    reveal(fed);
                }
                assert(stream.skip(0) =~= stream);
                assert(out =~= Seq::empty()) by {
                    reveal(fed);
                }
                assert(so_far + out =~= (so_far + out) + Seq::<u8>::empty());
            } else {
                let after = run(next, stream.skip(k as int));
                if after is Ok {
                    assert(so_far + (out + after->Ok_0.1) =~= (so_far + out) + after->Ok_0.1);
                }
            }
        },
    }
}

proof fn lemma_feeding_keeps_head(reader: ReaderView, input: Seq<u8>)
    requires
        reader_done_has_head(reader),
        fed(reader, input) is Ok,
    ensures
        reader_done_has_head(fed(reader, input)->Ok_0.0),
{
    reveal(fed);
}

/// A body of known length is read exactly: what follows it stays unread.
#[verifier::spinoff_prover]
#[verifier::rlimit(40)]
pub proof fn law_fixed_body_is_read_exactly(reader: ReaderView, body: Seq<u8>, rest: Seq<u8>)
    requires
        reader_wf(reader),
        reader.phase == Phase::Fixed(body.len() as usize),
        body.len() <= usize::MAX,
    ensures
        run(reader, body + rest) == Ok::<(ReaderView, Seq<u8>, Seq<u8>), Fault>(
            (
                ReaderView {
                    phase: Phase::Done,
                    total: (reader.total + body.len()) as usize,
                    ..reader
                },
                body,
                rest,
            ),
        ),
    decreases body.len(),
{
    reveal(fed);
    let stream = body + rest;
    let k = taken(reader.phase, stream.len()) as int;
    assert(stream.take(k) =~= body.take(k));
    assert(stream.skip(k) =~= body.skip(k) + rest);
    let (next, out) = fed(reader, body.take(k))->Ok_0;
    if k == body.len() {
        assert(body.skip(k) + rest =~= rest);
        assert(body.take(k) + Seq::<u8>::empty() =~= body);
    } else {
        law_fixed_body_is_read_exactly(next, body.skip(k), rest);
        assert(body.take(k) + body.skip(k) =~= body);
    }
}

/// The data of a chunk, then what follows it.
#[verifier::spinoff_prover]
#[verifier::rlimit(40)]
proof fn lemma_chunk_data(reader: ReaderView, data: Seq<u8>, rest: Seq<u8>)
    requires
        0 < data.len() <= usize::MAX,
        reader.phase == Phase::ChunkData(data.len() as usize),
    ensures
        run(reader, data + seq![13u8, 10u8] + rest) == prepended(
            data,
            run(ReaderView { phase: Phase::ChunkSize, ..reader }, rest),
        ),
    decreases data.len(),
{
    reveal(fed);
    let stream = data + seq![13u8, 10u8] + rest;
    let k = taken(reader.phase, stream.len()) as int;
    assert(stream.take(k) =~= data.take(k));
    let (next, out) = fed(reader, data.take(k))->Ok_0;
    if k == data.len() {
        let after_data = seq![13u8, 10u8] + rest;
        assert(stream.skip(k) =~= after_data);
        assert(data.take(k) =~= data);
        assert(taken(Phase::ChunkCr, after_data.len()) == 1);
        let cr = fed(next, after_data.take(1))->Ok_0.0;
        assert(cr.phase == Phase::ChunkLf(13));
        let after_cr = after_data.skip(1);
        assert(taken(cr.phase, after_cr.len()) == 1);
        assert(after_cr[0] == 10);
        let lf = fed(cr, after_cr.take(1))->Ok_0.0;
        assert(lf == (ReaderView { phase: Phase::ChunkSize, ..reader }));
        assert(after_cr.skip(1) =~= rest);
        let end = run(lf, rest);
        lemma_prepend_empty(end);
        assert(run(cr, after_cr) == end);
        assert(run(next, after_data) == end);
    } else {
        let left = data.skip(k);
        assert(stream.skip(k) =~= left + seq![13u8, 10u8] + rest);
        lemma_chunk_data(next, left, rest);
        let end = run(ReaderView { phase: Phase::ChunkSize, ..reader }, rest);
        assert(ReaderView { phase: Phase::ChunkSize, ..next } == (ReaderView {
            phase: Phase::ChunkSize,
            ..reader
        }));
        if end is Ok {
            assert(data.take(k) + (left + end->Ok_0.1) =~= data + end->Ok_0.1);
        }
    }
}

proof fn lemma_prepend_empty(read: Read)
    ensures
        prepended(Seq::empty(), read) == read,
{
    if read is Ok {
        assert(Seq::<u8>::empty() + read->Ok_0.1 =~= read->Ok_0.1);
    }
}

/// Bytes that a line can have before its end.
pub open spec fn is_line(line: Seq<u8>) -> bool {
    line.len() + 2 <= MAX_LINE_BYTES && forall|i: int| 0 <= i < line.len() ==> #[trigger] line[i]
        != 10
}

/// A line is read byte by byte up to its end.
#[verifier::spinoff_prover]
#[verifier::rlimit(40)]
proof fn lemma_line(reader: ReaderView, line: Seq<u8>, at: int, rest: Seq<u8>)
    requires
        reader.phase is ChunkSize || reader.phase is Trailer,
        is_line(line),
        0 <= at <= line.len(),
        reader.line == line.take(at),
    ensures
        run(reader, line.skip(at) + seq![13u8, 10u8] + rest) == (match (
            if reader.phase is ChunkSize {
                size_read(reader, line)
            } else {
                trailer_read(reader, line)
            }) {
            Ok(next) => run(next, rest),
            Err(error) => Err::<(ReaderView, Seq<u8>, Seq<u8>), Fault>(Fault::Refused(error)),
        }),
    decreases line.len() - at,
{
    reveal(fed);
    let stream = line.skip(at) + seq![13u8, 10u8] + rest;
    assert(taken(reader.phase, stream.len()) == 1);
    if at < line.len() {
        let grown = reader.line.push(line[at]);
        assert(stream[0] == line[at]);
        assert(stream.take(1)[0] == line[at]);
        assert(grown =~= line.take(at + 1));
        assert(!ends_line(grown)) by {
            assert(grown[at] == line[at]);
        }
        let next = ReaderView { line: grown, ..reader };
        assert(fed(reader, stream.take(1)) == Ok::<(ReaderView, Seq<u8>), Fault>(
            (next, Seq::empty()),
        ));
        assert(stream.skip(1) =~= line.skip(at + 1) + seq![13u8, 10u8] + rest);
        lemma_line(next, line, at + 1, rest);
        lemma_prepend_empty(run(next, stream.skip(1)));
        assert(size_read(next, line) == size_read(reader, line));
        assert(trailer_read(next, line) == trailer_read(reader, line));
    } else {
        assert(line.take(at) =~= line);
        let with_cr = line.push(13u8);
        assert(stream[0] == 13);
        assert(!ends_line(with_cr));
        let next = ReaderView { line: with_cr, ..reader };
        assert(fed(reader, stream.take(1)) == Ok::<(ReaderView, Seq<u8>), Fault>(
            (next, Seq::empty()),
        ));
        let after_cr = stream.skip(1);
        assert(after_cr =~= seq![10u8] + rest);
        assert(taken(next.phase, after_cr.len()) == 1);
        let with_lf = with_cr.push(10u8);
        assert(after_cr.take(1)[0] == 10);
        assert(ends_line(with_lf));
        assert(with_lf.take(with_lf.len() - 2) =~= line);
        assert(size_read(next, line) == size_read(reader, line));
        assert(trailer_read(next, line) == trailer_read(reader, line));
        assert(after_cr.skip(1) =~= rest);
        let read = if reader.phase is ChunkSize {
            size_read(reader, line)
        } else {
            trailer_read(reader, line)
        };
        assert(line_grown(next, 10u8) == read);
        lemma_prepend_empty(run(next, after_cr));
        if read is Ok {
            lemma_prepend_empty(run(read->Ok_0, rest));
        }
    }
}

/// A chunk adds its data to the body, whatever its line says besides the size.
#[verifier::spinoff_prover]
#[verifier::rlimit(40)]
pub proof fn law_chunk_adds_its_data(
    reader: ReaderView,
    line: Seq<u8>,
    data: Seq<u8>,
    rest: Seq<u8>,
)
    requires
        reader.phase is ChunkSize,
        reader.line.len() == 0,
        is_line(line),
        data.len() > 0,
        chunk_size_of(line) == Some(data.len()),
        reader.total + data.len() <= reader.limits.max_response_body_bytes,
    ensures
        run(reader, line + seq![13u8, 10u8] + data + seq![13u8, 10u8] + rest) == prepended(
            data,
            run(ReaderView { total: (reader.total + data.len()) as usize, ..reader }, rest),
        ),
{
    let after_line = data + seq![13u8, 10u8] + rest;
    assert(line.skip(0) =~= line);
    assert(reader.line =~= line.take(0));
    assert(line + seq![13u8, 10u8] + data + seq![13u8, 10u8] + rest =~= line + seq![13u8, 10u8]
        + after_line);
    lemma_line(reader, line, 0, after_line);
    let sized = size_read(reader, line)->Ok_0;
    lemma_chunk_data(sized, data, rest);
    assert(reader.line =~= Seq::empty());
    assert(ReaderView { phase: Phase::ChunkSize, ..sized } == (ReaderView {
        total: (reader.total + data.len()) as usize,
        ..reader
    }));
}

/// A chunk of no size and an empty line end the body, and what follows stays
/// unread.
pub proof fn law_last_chunk_ends_the_body(reader: ReaderView, line: Seq<u8>, rest: Seq<u8>)
    requires
        reader.phase is ChunkSize,
        reader.line.len() == 0,
        is_line(line),
        chunk_size_of(line) == Some(0nat),
    ensures
        run(reader, line + seq![13u8, 10u8] + seq![13u8, 10u8] + rest) == Ok::<
            (ReaderView, Seq<u8>, Seq<u8>),
            Fault,
        >((ReaderView { phase: Phase::Done, ..reader }, Seq::empty(), rest)),
{
    let after_line = seq![13u8, 10u8] + rest;
    let empty = Seq::<u8>::empty();
    assert(line.skip(0) =~= line);
    assert(reader.line =~= line.take(0));
    assert(line + seq![13u8, 10u8] + seq![13u8, 10u8] + rest =~= line + seq![13u8, 10u8]
        + after_line);
    lemma_line(reader, line, 0, after_line);
    let trailing = size_read(reader, line)->Ok_0;
    assert(empty.skip(0) + seq![13u8, 10u8] + rest =~= after_line);
    assert(trailing.line =~= empty.take(0));
    assert(valid_utf8(empty)) by {
        reveal_with_fuel(valid_utf8, 2);
    }
    lemma_line(trailing, empty, 0, rest);
    assert(reader.line =~= empty);
}

/// How much of the body has been handed on.
pub open spec fn produced(reader: ReaderView) -> int {
    match reader.phase {
        Phase::ChunkData(left) => reader.total - left,
        _ => reader.total as int,
    }
}

pub open spec fn within_limit(reader: ReaderView) -> bool {
    reader.total <= reader.limits.max_response_body_bytes && produced(reader) >= 0
}

/// The body of a response is as long as its head says, and within the limit.
pub proof fn law_body_is_counted_and_limited(
    limits: TransportLimits,
    method: Seq<char>,
    stream: Seq<u8>,
)
    requires
        run(fresh_reader(limits, method), stream) is Ok,
    ensures
        ({
            let (reader, body, rest) = run(fresh_reader(limits, method), stream)->Ok_0;
            body.len() == reader.total && reader.total <= limits.max_response_body_bytes
        }),
{
    lemma_counted(fresh_reader(limits, method), stream);
}

proof fn lemma_counted(reader: ReaderView, stream: Seq<u8>)
    requires
        reader_wf(reader),
        within_limit(reader),
        run(reader, stream) is Ok,
    ensures
        ({
            let (end, body, rest) = run(reader, stream)->Ok_0;
            &&& end.phase is Done
            &&& end.limits == reader.limits
            &&& end.total <= reader.limits.max_response_body_bytes
            &&& body.len() == end.total - produced(reader)
        }),
    decreases stream.len(),
{
    if !(reader.phase is Done) {
        let k = taken(reader.phase, stream.len()) as int;
        let (next, out) = fed(reader, stream.take(k))->Ok_0;
        lemma_fed_counts(reader, stream.take(k));
        if k > 0 {
            lemma_counted(next, stream.skip(k));
        } else {
            assert(next.phase is Done) by {
                reveal(fed);
            }
        }
    }
}

proof fn lemma_fed_counts(reader: ReaderView, input: Seq<u8>)
    requires
        reader_wf(reader),
        within_limit(reader),
        input.len() <= wanted(reader.phase),
        fed(reader, input) is Ok,
    ensures
        ({
            let (next, out) = fed(reader, input)->Ok_0;
            &&& reader_wf(next)
            &&& within_limit(next)
            &&& next.limits == reader.limits
            &&& out.len() == produced(next) - produced(reader)
        }),
{
    reveal(fed);
}

/// The head of an answer that switches protocols: status 101, and headers that
/// say so.
pub open spec fn switches_protocol(head: Seq<u8>) -> bool {
    valid_utf8(head) && {
        let text = decode_utf8(head);
        let n = text.len() as int;
        &&& n >= 4
        &&& text.skip(n - 4) == seq!['\r', '\n', '\r', '\n']
        &&& head_of(text.take(n - 4), false) matches Some(parsed) && parsed.status == 101
            && agrees_to_switch(parsed.headers)
    }
}

pub open spec fn agrees_connection(header: HeaderView) -> bool {
    text::same_ignoring_case(header.0, "connection"@) && request::has_token(header.1, "upgrade"@)
}

pub open spec fn agrees_websocket(header: HeaderView) -> bool {
    text::same_ignoring_case(header.0, "upgrade"@) && text::same_ignoring_case(
        header.1,
        "websocket"@,
    )
}

pub open spec fn agrees_to_switch(headers: Seq<HeaderView>) -> bool {
    (exists|i: int| 0 <= i < headers.len() && agrees_connection(#[trigger] headers[i])) && (exists|
        i: int,
    |
        0 <= i < headers.len() && agrees_websocket(#[trigger] headers[i]))
}

fn headers_agree(headers: &Vec<Header>) -> (r: bool)
    ensures
        r == agrees_to_switch(types::header_views(headers@)),
{
    let ghost all = types::header_views(headers@);
    let mut connection = false;
    let mut websocket = false;
    let mut i: usize = 0;
    while i < headers.len()
        invariant
            i <= headers@.len(),
            all == types::header_views(headers@),
            connection == (exists|j: int| 0 <= j < i && agrees_connection(#[trigger] all[j])),
            websocket == (exists|j: int| 0 <= j < i && agrees_websocket(#[trigger] all[j])),
        decreases headers@.len() - i,
    {
        assert(all[i as int] == (headers@[i as int].0@, headers@[i as int].1@));
        let name = headers[i].0.as_str();
        let value = headers[i].1.as_str();
        if text::eq_ignore_case(name, "connection") && request::has_header_token(value, "upgrade") {
            connection = true;
            assert(agrees_connection(all[i as int]));
        }
        if text::eq_ignore_case(name, "upgrade") && text::eq_ignore_case(value, "websocket") {
            websocket = true;
            assert(agrees_websocket(all[i as int]));
        }
        i = i + 1;
    }
    assert(all.len() == headers@.len());
    connection && websocket
}

pub fn validate_upgrade_response_head(head: &Vec<u8>) -> (r: Result<(), TransportError>)
    ensures
        r == (if switches_protocol(head@) {
            Ok(())
        } else {
            Err(TransportError::MalformedResponse)
        }),
{
    let head_text = match bytes::utf8_text(head.as_slice()) {
        Some(head_text) => head_text,
        None => {
            return Err(TransportError::MalformedResponse);
        },
    };
    let cs = text::chars_of(head_text.as_str());
    let n: usize = cs.len();
    if n < 4 || cs[n - 4] != '\r' || cs[n - 3] != '\n' || cs[n - 2] != '\r' || cs[n - 1]
        != '\n' {
        proof {
            if n >= 4 && cs@.skip(n - 4) == seq!['\r', '\n', '\r', '\n'] {
                let end = cs@.skip(n - 4);
                assert(end[0] == cs@[n - 4]);
                assert(end[1] == cs@[n - 3]);
                assert(end[2] == cs@[n - 2]);
                assert(end[3] == cs@[n - 1]);
            }
        }
        return Err(TransportError::MalformedResponse);
    }
    assert(cs@.skip(n - 4) =~= seq!['\r', '\n', '\r', '\n']);
    let content = text::text_range(&cs, 0, n - 4);
    assert(content@ =~= cs@.take(n - 4));
    match parse_head_text(content.as_str(), false) {
        Some(parsed) if parsed.status == 101 => if headers_agree(&parsed.headers) {
            Ok(())
        } else {
            Err(TransportError::MalformedResponse)
        },
        _ => Err(TransportError::MalformedResponse),
    }
}

/// A response that is framed in two ways, or in a way that is not understood, is
/// refused.
pub proof fn law_ambiguous_framing_is_refused(method: Seq<char>, head: HeadView)
    requires
        !has_no_body(method, head.status),
        coded(head.headers) matches Ok(Some(codings)) && (codings != seq![TransferCoding::Chunked]
            || length_of(head.headers, head.headers.len()) matches Ok(Some(_))),
    ensures
        framing_of(method, head) is Err,
{
}

/// Whether a text can stand at the edge of a header: no line break in it, and no
/// white space at its ends.
pub open spec fn is_plain_text(s: Seq<char>) -> bool {
    &&& !s.contains('\r')
    &&& !s.contains('\n')
    &&& s.len() > 0 ==> !text::is_space(s[0]) && !text::is_space(s.last())
}

proof fn lemma_token_is_plain(name: Seq<char>)
    requires
        request::is_token(name),
    ensures
        name.len() > 0,
        is_plain_text(name),
        !name.contains(':'),
        !name.contains(' '),
{
    assert forall|i: int| 0 <= i < name.len() implies request::is_token_char(#[trigger] name[i]) by {
    }
    if name.contains('\r') {
        let i = choose|i: int| 0 <= i < name.len() && name[i] == '\r';
        assert(request::is_token_char(name[i]));
    }
    if name.contains('\n') {
        let i = choose|i: int| 0 <= i < name.len() && name[i] == '\n';
        assert(request::is_token_char(name[i]));
    }
    if name.contains(':') {
        let i = choose|i: int| 0 <= i < name.len() && name[i] == ':';
        assert(request::is_token_char(name[i]));
    }
    if name.contains(' ') {
        let i = choose|i: int| 0 <= i < name.len() && name[i] == ' ';
        assert(request::is_token_char(name[i]));
    }
    assert(request::is_token_char(name[0]));
    assert(request::is_token_char(name.last()));
}

/// A header line is read as it was written: name and value come back unchanged,
/// to the letter.
pub proof fn law_header_line_reads_back(name: Seq<char>, value: Seq<char>)
    requires
        !name.contains(':'),
        name.len() > 0 ==> !text::is_space(name[0]) && !text::is_space(name.last()),
        value.len() > 0 ==> !text::is_space(value[0]) && !text::is_space(value.last()),
    ensures
        header_of(name + ": "@ + value) == Some((name, value)),
        header_of(name + ":"@ + value) == Some((name, value)),
{
    reveal_strlit(": ");
    reveal_strlit(":");
    let spaced = name + ": "@ + value;
    let close = name + ":"@ + value;
    assert forall|i: int| 0 <= i < name.len() implies name[i] != ':' by {
        if name[i] == ':' {
            assert(name.contains(':'));
        }
    }
    text::lemma_find_is(spaced, ':', name.len() as int);
    text::lemma_find_is(close, ':', name.len() as int);
    assert(spaced.take(name.len() as int) =~= name);
    assert(close.take(name.len() as int) =~= name);
    assert(spaced.skip(name.len() as int + 1) =~= seq![' '] + value);
    assert(close.skip(name.len() as int + 1) =~= value);
    text::law_trimmed_text_stays(name);
    text::law_trimmed_text_stays(value);
}

/// Header lines as they follow a status line.
pub open spec fn lines_after(headers: Seq<HeaderView>) -> Seq<char>
    decreases headers.len(),
{
    if headers.len() == 0 {
        Seq::empty()
    } else {
        "\r\n"@ + headers[0].0 + ": "@ + headers[0].1 + lines_after(headers.skip(1))
    }
}

proof fn lemma_head_lines(first: Seq<char>, headers: Seq<HeaderView>)
    requires
        !first.contains('\r'),
        forall|i: int|
            0 <= i < headers.len() ==> request::is_token((#[trigger] headers[i]).0)
                && is_plain_text(headers[i].1),
    ensures
        text::lines(first + lines_after(headers)).len() == headers.len() + 1,
        text::lines(first + lines_after(headers))[0] == first,
        forall|i: int|
            0 <= i < headers.len() ==> #[trigger] text::lines(first + lines_after(headers))[i + 1]
                == headers[i].0 + ": "@ + headers[i].1,
    decreases headers.len(),
{
    reveal_strlit("\r\n");
    reveal_strlit(": ");
    if headers.len() == 0 {
        assert(first + lines_after(headers) =~= first);
        text::law_lines_undo_joining(first, Seq::empty());
    } else {
        let line = headers[0].0 + ": "@ + headers[0].1;
        let rest = headers.skip(1);
        lemma_token_is_plain(headers[0].0);
        assert(!line.contains('\r')) by {
            if line.contains('\r') {
                let i = choose|i: int| 0 <= i < line.len() && line[i] == '\r';
                if i < headers[0].0.len() {
                    assert(headers[0].0[i] == '\r');
                } else if i >= headers[0].0.len() + 2 {
                    assert(headers[0].1[i - headers[0].0.len() - 2] == '\r');
                }
            }
        }
        assert forall|i: int| 0 <= i < rest.len() implies request::is_token(
            (#[trigger] rest[i]).0,
        ) && is_plain_text(rest[i].1) by {
            assert(rest[i] == headers[i + 1]);
        }
        lemma_head_lines(line, rest);
        let whole = first + lines_after(headers);
        assert(whole =~= first + seq!['\r', '\n'] + (line + lines_after(rest)));
        text::law_lines_undo_joining(first, line + lines_after(rest));
        let told = text::lines(whole);
        let later = text::lines(line + lines_after(rest));
        assert(told == seq![first] + later);
        assert forall|i: int| 0 <= i < headers.len() implies #[trigger] told[i + 1]
            == headers[i].0 + ": "@ + headers[i].1 by {
            if i > 0 {
                assert(told[i + 1] == later[(i - 1) + 1]);
                assert(rest[i - 1] == headers[i]);
            } else {
                assert(told[1] == later[0]);
            }
        }
    }
}

proof fn lemma_headers_read(
    lines: Seq<Seq<char>>,
    headers: Seq<HeaderView>,
    n: nat,
    strict: bool,
)
    requires
        1 <= n <= headers.len() + 1,
        lines.len() == headers.len() + 1,
        forall|i: int|
            0 <= i < headers.len() ==> request::is_token((#[trigger] headers[i]).0)
                && is_plain_text(headers[i].1),
        forall|i: int|
            0 <= i < headers.len() ==> #[trigger] lines[i + 1] == headers[i].0 + ": "@
                + headers[i].1,
    ensures
        headers_of(lines, n, strict) == Some(headers.take(n - 1)),
    decreases n,
{
    if n == 1 {
        assert(headers.take(0) =~= Seq::empty());
    } else {
        lemma_headers_read(lines, headers, (n - 1) as nat, strict);
        let header = headers[n - 2];
        assert(lines[(n - 2) + 1] == header.0 + ": "@ + header.1);
        lemma_token_is_plain(header.0);
        law_header_line_reads_back(header.0, header.1);
        assert(headers.take(n - 2).push(header) =~= headers.take(n - 1));
    }
}

/// The head of a response is read as it was written: its version, its status and
/// every header, in order and unchanged, whatever the reason says.
pub proof fn law_response_head_reads_back(
    version: Seq<char>,
    status: u16,
    reason: Seq<char>,
    headers: Seq<HeaderView>,
    strict: bool,
)
    requires
        text::occurs_at(version, "HTTP/"@, 0),
        !version.contains(' '),
        !version.contains('\r'),
        !reason.contains('\r'),
        forall|i: int|
            0 <= i < headers.len() ==> request::is_token((#[trigger] headers[i]).0)
                && is_plain_text(headers[i].1),
    ensures
        head_of(
            version + " "@ + text::decimal(status as nat) + " "@ + reason + lines_after(headers),
            strict,
        ) == Some(HeadView { version, status, headers }),
        head_of(version + " "@ + text::decimal(status as nat) + lines_after(headers), strict)
            == Some(HeadView { version, status, headers }),
{
    reveal_strlit(" ");
    let digits = text::decimal(status as nat);
    text::law_decimal_reads_back(status as nat, 65_535);
    text::lemma_decimal_digits(status as nat);
    let long = version + " "@ + digits + " "@ + reason;
    let short = version + " "@ + digits;
    assert forall|i: int| 0 <= i < version.len() implies version[i] != ' ' && version[i] != '\r' by {
        if version[i] == ' ' {
            assert(version.contains(' '));
        }
        if version[i] == '\r' {
            assert(version.contains('\r'));
        }
    }
    assert(!long.contains('\r')) by {
        if long.contains('\r') {
            let i = choose|i: int| 0 <= i < long.len() && long[i] == '\r';
            if i >= version.len() + digits.len() + 2 {
                assert(reason[i - version.len() - digits.len() - 2] == '\r');
            } else if version.len() < i <= version.len() + digits.len() {
                assert(long[i] == digits[i - version.len() - 1]);
            }
        }
    }
    assert(!short.contains('\r')) by {
        if short.contains('\r') {
            let i = choose|i: int| 0 <= i < short.len() && short[i] == '\r';
            if i > version.len() {
                assert(short[i] == digits[i - version.len() - 1]);
            }
        }
    }
    let at = version.len() as int;
    text::lemma_find_is(long, ' ', at);
    text::lemma_find_is(short, ' ', at);
    assert(long.take(at) =~= version);
    assert(short.take(at) =~= version);
    let after = digits + " "@ + reason;
    assert(long.skip(at + 1) =~= after);
    assert(short.skip(at + 1) =~= digits);
    text::lemma_find_is(after, ' ', digits.len() as int);
    text::lemma_find_is(digits, ' ', digits.len() as int);
    assert(after.take(digits.len() as int) =~= digits);
    assert(digits.take(digits.len() as int) =~= digits);
    lemma_head_lines(long, headers);
    lemma_head_lines(short, headers);
    lemma_headers_read(
        text::lines(long + lines_after(headers)),
        headers,
        headers.len() + 1,
        strict,
    );
    lemma_headers_read(
        text::lines(short + lines_after(headers)),
        headers,
        headers.len() + 1,
        strict,
    );
    assert(headers.take(headers.len() as int) =~= headers);
}

/// The bytes of a head are read as its text, if the status has three digits.
pub proof fn law_head_bytes_are_its_text(head: Seq<char>)
    ensures
        response_head(encode_utf8(head)) == (match head_of(head, true) {
            Some(parsed) if 100 <= parsed.status <= 999 => Some(parsed),
            _ => None,
        }),
{
    encode_utf8_valid_utf8(head);
    encode_utf8_decode_utf8(head);
}

/// Whether a response has no body is a matter of the request's method and of the
/// status: HEAD, any status below 200, 204 and 304.
pub proof fn law_responses_without_a_body(method: Seq<char>, head: HeadView)
    requires
        head.status >= 100,
    ensures
        has_no_body(method, head.status) <==> text::lower(method) == "head"@ || head.status < 200
            || head.status == 204 || head.status == 304,
        has_no_body(method, head.status) ==> framing_of(method, head) == Ok::<
            BodyFraming,
            TransportError,
        >(BodyFraming::Empty),
{
    reveal_strlit("HEAD");
    reveal_strlit("head");
    assert(text::lower("HEAD"@) =~= "head"@);
}

/// Whether a header speaks of the body's length or its coding.
pub open spec fn frames(header: HeaderView) -> bool {
    text::lower(header.0) == "content-length"@ || text::lower(header.0) == "transfer-encoding"@
}

proof fn lemma_framing_names()
    ensures
        text::lower("content-length"@) == "content-length"@,
        text::lower("transfer-encoding"@) == "transfer-encoding"@,
        text::lower("chunked"@) == "chunked"@,
        "content-length"@ != "transfer-encoding"@,
{
    reveal_strlit("content-length");
    reveal_strlit("transfer-encoding");
    reveal_strlit("chunked");
    assert(text::lower("content-length"@) =~= "content-length"@);
    assert(text::lower("transfer-encoding"@) =~= "transfer-encoding"@);
    assert(text::lower("chunked"@) =~= "chunked"@);
    assert("content-length"@.len() == 14);
    assert("transfer-encoding"@.len() == 17);
}

proof fn lemma_framing_at(headers: Seq<HeaderView>, at: int, n: nat, length: nat)
    requires
        n <= headers.len(),
        forall|i: int| 0 <= i < headers.len() && i != at ==> !frames(#[trigger] headers[i]),
        length <= usize::MAX,
    ensures
        0 <= at < headers.len() && text::lower(headers[at].0) == "content-length"@ && headers[at].1
            == text::decimal(length) ==> length_of(headers, n) == Ok::<
            Option<nat>,
            TransportError,
        >(
            if at < n {
                Some(length)
            } else {
                None
            },
        ) && codings_of(headers, n) == Some(Seq::<TransferCoding>::empty()),
        0 <= at < headers.len() && text::lower(headers[at].0) == "transfer-encoding"@
            && text::lower(headers[at].1) == "chunked"@ ==> length_of(headers, n) == Ok::<
            Option<nat>,
            TransportError,
        >(None) && codings_of(headers, n) == Some(
            if at < n {
                seq![TransferCoding::Chunked]
            } else {
                Seq::empty()
            },
        ),
        !(0 <= at < headers.len()) ==> length_of(headers, n) == Ok::<Option<nat>, TransportError>(
            None,
        ) && codings_of(headers, n) == Some(Seq::<TransferCoding>::empty()),
    decreases n,
{
    lemma_framing_names();
    if n > 0 {
        lemma_framing_at(headers, at, (n - 1) as nat, length);
        text::law_decimal_reads_back(length, usize::MAX as nat);
        if n - 1 != at {
            assert(!frames(headers[n - 1]));
        } else if text::lower(headers[at].1) == "chunked"@ {
            lemma_chunked_alone(headers[at].1);
        }
    }
}

proof fn lemma_chunked_alone(value: Seq<char>)
    requires
        text::lower(value) == "chunked"@,
    ensures
        codings_of_parts(Seq::empty(), text::split(value, ','), text::split(value, ',').len())
            == Some(seq![TransferCoding::Chunked]),
{
    reveal_strlit("chunked");
    lemma_framing_names();
    assert(value.len() == 7);
    assert forall|i: int| 0 <= i < 7 implies value[i] != ',' && !text::is_space(value[i]) by {
        assert(text::lower(value)[i] == "chunked"@[i]);
        assert(text::lower_char(value[i]) == "chunked"@[i]);
        assert('c' <= "chunked"@[i] <= 'u');
    }
    if value.contains(',') {
        let i = choose|i: int| 0 <= i < value.len() && value[i] == ',';
        assert(value[i] != ',');
    }
    text::law_split_undoes_joining(value, Seq::empty(), ',');
    assert(!text::is_space(value[0]) && !text::is_space(value.last()));
    text::law_trimmed_text_stays(value);
    reveal_with_fuel(codings_of_parts, 2);
    assert(Seq::<TransferCoding>::empty().push(TransferCoding::Chunked) =~= seq![
        TransferCoding::Chunked,
    ]);
}

/// A response that announces its length has a body of that length; one that
/// announces chunks has chunks; one that announces neither has all that comes.
/// What else the headers say does not matter, nor the case of these.
pub proof fn law_body_is_framed_as_announced(
    method: Seq<char>,
    head: HeadView,
    at: int,
    length: nat,
)
    requires
        !has_no_body(method, head.status),
        forall|i: int|
            0 <= i < head.headers.len() && i != at ==> !frames(#[trigger] head.headers[i]),
        length <= usize::MAX,
    ensures
        0 <= at < head.headers.len() && text::lower(head.headers[at].0) == "content-length"@
            && head.headers[at].1 == text::decimal(length) ==> framing_of(method, head) == Ok::<
            BodyFraming,
            TransportError,
        >(BodyFraming::Fixed(length as usize)),
        0 <= at < head.headers.len() && text::lower(head.headers[at].0) == "transfer-encoding"@
            && text::lower(head.headers[at].1) == "chunked"@ ==> framing_of(method, head) == Ok::<
            BodyFraming,
            TransportError,
        >(BodyFraming::Chunked),
        !(0 <= at < head.headers.len()) ==> framing_of(method, head) == Ok::<
            BodyFraming,
            TransportError,
        >(BodyFraming::UntilEof),
{
    lemma_framing_at(head.headers, at, head.headers.len(), length);
}

/// A body that goes on to the end of the connection is all that comes.
pub proof fn law_open_body_is_all_that_comes(reader: ReaderView, body: Seq<u8>)
    requires
        reader.phase is UntilEof,
        reader.total + body.len() <= reader.limits.max_response_body_bytes,
    ensures
        run(reader, body) == Ok::<(ReaderView, Seq<u8>, Seq<u8>), Fault>(
            (
                ReaderView {
                    phase: Phase::Done,
                    total: (reader.total + body.len()) as usize,
                    ..reader
                },
                body,
                Seq::empty(),
            ),
        ),
    decreases body.len(),
{
    reveal(fed);
    let k = taken(reader.phase, body.len()) as int;
    if k == 0 {
        assert(body =~= Seq::empty());
        assert(body.take(0) =~= Seq::empty());
    } else {
        let next = fed(reader, body.take(k))->Ok_0.0;
        law_open_body_is_all_that_comes(next, body.skip(k));
        assert(body.take(k) + body.skip(k) =~= body);
    }
}

/// A head with the empty line that ends it.
pub open spec fn with_empty_line(head: Seq<u8>) -> Seq<u8> {
    head + seq![13u8, 10u8, 13u8, 10u8]
}

/// Whether bytes can stand before the empty line that ends a head.
pub open spec fn is_head(head: Seq<u8>) -> bool {
    forall|k: int|
        0 <= k < head.len() + 4 ==> !ends_head(
            #[trigger] with_empty_line(head).take(k),
        )
}

proof fn lemma_head_grows(reader: ReaderView, head: Seq<u8>, at: int, rest: Seq<u8>)
    requires
        reader.phase is Head,
        is_head(head),
        head.len() + 3 < reader.limits.max_response_header_bytes,
        0 <= at < head.len() + 4,
        reader.line == with_empty_line(head).take(at),
    ensures
        run(reader, with_empty_line(head).skip(at) + rest) == (match head_read(
            reader,
            head,
        ) {
            Ok(next) => run(next, rest),
            Err(error) => Err::<(ReaderView, Seq<u8>, Seq<u8>), Fault>(Fault::Refused(error)),
        }),
    decreases head.len() + 4 - at,
{
    reveal(fed);
    let whole = with_empty_line(head);
    let stream = whole.skip(at) + rest;
    assert(taken(reader.phase, stream.len()) == 1);
    assert(stream.take(1)[0] == whole[at]);
    let grown = reader.line.push(whole[at]);
    assert(grown =~= whole.take(at + 1));
    assert(stream.skip(1) =~= whole.skip(at + 1) + rest);
    if at + 1 < whole.len() {
        let next = ReaderView { line: grown, ..reader };
        assert(!ends_head(grown));
        assert(fed(reader, stream.take(1)) == Ok::<(ReaderView, Seq<u8>), Fault>(
            (next, Seq::empty()),
        ));
        lemma_head_grows(next, head, at + 1, rest);
        lemma_prepend_empty(run(next, stream.skip(1)));
        assert(head_read(next, head) == head_read(reader, head));
    } else {
        assert(whole.take(at + 1) =~= whole);
        assert(whole.take(whole.len() - 4) =~= head);
        assert(whole.skip(at + 1) + rest =~= rest);
        match head_read(reader, head) {
            Ok(next) => {
                lemma_prepend_empty(run(next, rest));
            },
            Err(_) => {},
        }
    }
}

/// A response is its head, up to the first empty line, and what follows it: the
/// head is read first, and the rest is read as the head says.
pub proof fn law_head_ends_at_the_empty_line(
    limits: TransportLimits,
    method: Seq<char>,
    head: Seq<u8>,
    rest: Seq<u8>,
)
    requires
        is_head(head),
        head.len() + 3 < limits.max_response_header_bytes,
    ensures
        run(fresh_reader(limits, method), with_empty_line(head) + rest) == (
        match head_read(fresh_reader(limits, method), head) {
            Ok(next) => run(next, rest),
            Err(error) => Err::<(ReaderView, Seq<u8>, Seq<u8>), Fault>(Fault::Refused(error)),
        }),
{
    let whole = with_empty_line(head);
    let reader = fresh_reader(limits, method);
    assert(reader.line =~= whole.take(0));
    lemma_head_grows(reader, head, 0, rest);
    assert(whole.skip(0) + rest =~= whole + rest);
}

/// A response with an announced length is read whole: the head as parsed, the
/// body as sent, and not a byte of what follows it.
pub proof fn law_response_is_read_as_sent(
    limits: TransportLimits,
    method: Seq<char>,
    head: Seq<u8>,
    body: Seq<u8>,
    rest: Seq<u8>,
)
    requires
        is_head(head),
        head.len() + 3 < limits.max_response_header_bytes,
        body.len() <= limits.max_response_body_bytes,
        response_head(head) is Some,
        framing_of(method, response_head(head)->0) == Ok::<BodyFraming, TransportError>(
            BodyFraming::Fixed(body.len() as usize),
        ),
    ensures
        ({
            let read = run(
                fresh_reader(limits, method),
                with_empty_line(head) + body + rest,
            );
            &&& read is Ok
            &&& read->Ok_0.0.phase is Done
            &&& read->Ok_0.0.head == response_head(head)
            &&& read->Ok_0.0.total == body.len()
            &&& read->Ok_0.0.self_delimited
            &&& read->Ok_0.1 == body
            &&& read->Ok_0.2 == rest
        }),
{
    let reader = fresh_reader(limits, method);
    law_head_ends_at_the_empty_line(limits, method, head, body + rest);
    assert(with_empty_line(head) + body + rest =~= with_empty_line(head)
        + (body + rest));
    let next = head_read(reader, head)->Ok_0;
    if body.len() == 0 {
        assert(body + rest =~= rest);
        assert(body =~= Seq::empty());
    } else {
        law_fixed_body_is_read_exactly(next, body, rest);
    }
}

/// A connection carries another response exactly after a response of HTTP/1.1
/// that ended by itself and has no `Connection` header that asks to close.
pub proof fn law_when_a_connection_is_kept(reader: ReaderView, head: HeadView)
    requires
        reader.head == Some(head),
    ensures
        can_reuse(reader) <==> {
            &&& text::lower(head.version) == "http/1.1"@
            &&& reader.self_delimited
            &&& forall|i: int|
                0 <= i < head.headers.len() && text::lower((#[trigger] head.headers[i]).0)
                    == "connection"@ ==> !request::has_token(head.headers[i].1, "close"@)
        },
{
    reveal_strlit("HTTP/1.1");
    reveal_strlit("http/1.1");
    reveal_strlit("connection");
    assert(text::lower("HTTP/1.1"@) =~= "http/1.1"@);
    assert(text::lower("connection"@) =~= "connection"@);
    if closes(head.headers) {
        let i = choose|i: int| 0 <= i < head.headers.len() && asks_close(#[trigger] head.headers[i]);
        assert(text::lower(head.headers[i].0) == "connection"@);
    } else {
        assert forall|i: int|
            0 <= i < head.headers.len() && text::lower((#[trigger] head.headers[i]).0)
                == "connection"@ implies !request::has_token(head.headers[i].1, "close"@) by {
            assert(!asks_close(head.headers[i]));
        }
    }
}

/// A chunk's size is read in hexadecimal, before any extension.
pub proof fn law_chunk_size_ignores_extensions(digits: Seq<char>, extension: Seq<char>)
    requires
        digits.len() > 0,
        !digits.contains(';'),
        !text::is_space(digits[0]),
        !text::is_space(digits.last()),
    ensures
        chunk_size_of(encode_utf8(digits)) == text::parsed_number(digits, 16, usize::MAX as nat),
        chunk_size_of(encode_utf8(digits + seq![';'] + extension)) == text::parsed_number(
            digits,
            16,
            usize::MAX as nat,
        ),
{
    let long = digits + seq![';'] + extension;
    encode_utf8_valid_utf8(digits);
    encode_utf8_decode_utf8(digits);
    encode_utf8_valid_utf8(long);
    encode_utf8_decode_utf8(long);
    assert forall|i: int| 0 <= i < digits.len() implies digits[i] != ';' by {
        if digits[i] == ';' {
            assert(digits.contains(';'));
        }
    }
    text::lemma_find_is(digits, ';', digits.len() as int);
    text::lemma_find_is(long, ';', digits.len() as int);
    assert(digits.take(digits.len() as int) =~= digits);
    assert(long.take(digits.len() as int) =~= digits);
    text::law_trimmed_text_stays(digits);
}

/// An origin agrees to switch exactly where one of its headers is a `Connection`
/// that lists `upgrade`, and one is an `Upgrade` to `websocket`.
pub proof fn law_what_agrees_to_switch(headers: Seq<HeaderView>)
    ensures
        agrees_to_switch(headers) <==> (exists|i: int|
            0 <= i < headers.len() && text::lower((#[trigger] headers[i]).0) == "connection"@
                && request::has_token(headers[i].1, "upgrade"@)) && (exists|i: int|
            0 <= i < headers.len() && text::lower((#[trigger] headers[i]).0) == "upgrade"@
                && text::lower(headers[i].1) == "websocket"@),
{
    reveal_strlit("connection");
    reveal_strlit("upgrade");
    reveal_strlit("websocket");
    assert(text::lower("connection"@) =~= "connection"@);
    assert(text::lower("upgrade"@) =~= "upgrade"@);
    assert(text::lower("websocket"@) =~= "websocket"@);
    if exists|i: int|
        0 <= i < headers.len() && text::lower((#[trigger] headers[i]).0) == "connection"@
            && request::has_token(headers[i].1, "upgrade"@) {
        let i = choose|i: int|
            0 <= i < headers.len() && text::lower((#[trigger] headers[i]).0) == "connection"@
                && request::has_token(headers[i].1, "upgrade"@);
        assert(agrees_connection(headers[i]));
    }
    if exists|i: int|
        0 <= i < headers.len() && text::lower((#[trigger] headers[i]).0) == "upgrade"@
            && text::lower(headers[i].1) == "websocket"@ {
        let i = choose|i: int|
            0 <= i < headers.len() && text::lower((#[trigger] headers[i]).0) == "upgrade"@
                && text::lower(headers[i].1) == "websocket"@;
        assert(agrees_websocket(headers[i]));
    }
}

/// A line of a chunked body has up to 8192 bytes with its end.
pub proof fn law_lines_have_a_limit(line: Seq<u8>)
    ensures
        is_line(line) <==> line.len() <= 8190 && !line.contains(10),
{
    if is_line(line) && line.contains(10) {
        let i = choose|i: int| 0 <= i < line.len() && line[i] == 10;
        assert(line[i] != 10);
    }
    if !line.contains(10) {
        assert forall|i: int| 0 <= i < line.len() implies #[trigger] line[i] != 10 by {
        }
    }
}

/// No more is read of a body than is left of it, and something while anything is.
pub proof fn law_no_more_is_read_than_is_left(left: usize)
    ensures
        wanted(Phase::Fixed(left)) <= left,
        wanted(Phase::ChunkData(left)) <= left,
        left > 0 ==> wanted(Phase::Fixed(left)) > 0 && wanted(Phase::ChunkData(left)) > 0,
        wanted(Phase::UntilEof) > 0,
        wanted(Phase::Done) == 0,
        wanted(Phase::Head) == 1,
        wanted(Phase::ChunkSize) == 1,
        wanted(Phase::Trailer) == 1,
{
}

} // verus!
