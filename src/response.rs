//! Reassembly of the scanner's response. Each non-empty read is one chunk:
//! byte 0 is reserved, byte 1 is the payload length `L`, bytes 2..5 are the
//! symbology (AIM) identifier, bytes `5..5 + L` are the payload and byte
//! `5 + L` is its terminator. An empty read ends the response. Payload bytes
//! are widened to characters as Latin-1 code points.
use vstd::prelude::*;
use crate::error::ScannerError;
use crate::text::push_char;

verus! {

/// The chunk holds its header, identifier, declared payload and terminator.
pub open spec fn well_framed(c: Seq<u8>) -> bool {
    c.len() >= 2 && 5 + c[1] < c.len()
}

pub open spec fn latin1(b: Seq<u8>) -> Seq<char> {
    b.map_values(|x: u8| x as char)
}

/// The text a well-framed chunk carries.
pub open spec fn chunk_text(c: Seq<u8>) -> Seq<char> {
    latin1(c.subrange(5, 5 + c[1] as int))
}

/// The response that a sequence of reads gives, when at most `max` chunks
/// are accepted: the chunks' texts in arrival order, up to the first empty
/// read (or the end of the reads); a chunk that is not well framed, or one
/// chunk too many, fails it.
pub open spec fn response_of(reads: Seq<Seq<u8>>, max: nat) -> Result<Seq<char>, ScannerError>
    decreases reads.len(),
{
    if reads.len() == 0 || reads[0].len() == 0 {
        Ok(Seq::empty())
    } else if !well_framed(reads[0]) {
        Err(ScannerError::FramingError)
    } else if max == 0 {
        Err(ScannerError::TooManyChunks)
    } else {
        match response_of(reads.drop_first(), (max - 1) as nat) {
            Ok(t) => Ok(chunk_text(reads[0]) + t),
            Err(e) => Err(e),
        }
    }
}

/// The text of a well-framed chunk: its payload, widened byte by byte.
pub fn chunk_payload(chunk: &Vec<u8>) -> (r: Result<String, ScannerError>)
    ensures
        well_framed(chunk@) ==> r is Ok && r->Ok_0@ == chunk_text(chunk@),
        !well_framed(chunk@) ==> r == Err::<String, ScannerError>(ScannerError::FramingError),
{
    if chunk.len() < 2 {
        return Err(ScannerError::FramingError);
    }
    let len = chunk[1] as usize;
    if 5 + len >= chunk.len() {
        return Err(ScannerError::FramingError);
    }
    let mut text = String::new();
    let mut i: usize = 5;
    while i < 5 + len
        invariant
            len == chunk@[1],
            5 + len < chunk@.len(),
            5 <= i <= 5 + len,
            text@ == latin1(chunk@.subrange(5, i as int)),
        decreases 5 + len - i,
    {
        let b = chunk[i];
        push_char(&mut text, b as char);
        assert(chunk@.subrange(5, i + 1) == chunk@.subrange(5, i as int).push(b));
        assert(latin1(chunk@.subrange(5, i + 1)) == latin1(chunk@.subrange(5, i as int)).push(b as char));
        i = i + 1;
    }
    Ok(text)
}

/// What a read leaves the reader with.
pub enum ReadStep {
    /// The chunk was taken in; read again.
    More,
    /// The device is done: the whole response.
    Done(String),
}

/// Accumulates the chunks of one response. It accepts at most a fixed number
/// of chunks, so that a device that never stops sending cannot hold its
/// caller forever.
pub struct ResponseReader {
    text: String,
    chunks: usize,
    max_chunks: usize,
}

pub ghost struct ReaderView {
    pub text: Seq<char>,
    pub chunks: nat,
    pub max_chunks: nat,
}

impl View for ResponseReader {
    type V = ReaderView;

    closed spec fn view(&self) -> ReaderView {
        ReaderView {
            text: self.text@,
            chunks: self.chunks as nat,
            max_chunks: self.max_chunks as nat,
        }
    }
}

impl ResponseReader {
    /// A reader with nothing read yet, that accepts up to `max_chunks` chunks.
    pub fn new(max_chunks: usize) -> (r: ResponseReader)
        ensures
            r@.text == Seq::<char>::empty(),
            r@.chunks == 0,
            r@.max_chunks == max_chunks,
    {
        ResponseReader { text: String::new(), chunks: 0, max_chunks }
    }

    /// Takes in one read. An empty read ends the response and hands back all
    /// text so far. A chunk that is not well framed fails with
    /// `FramingError`, and one beyond the allowed count with `TooManyChunks`;
    /// either leaves the reader as it was. Otherwise the chunk's text is
    /// appended.
    pub fn on_read(&mut self, chunk: &Vec<u8>) -> (r: Result<ReadStep, ScannerError>)
        ensures
            chunk@.len() == 0 ==> final(self)@ == old(self)@ && (r matches Ok(ReadStep::Done(s))
                && s@ == old(self)@.text),
            chunk@.len() != 0 && !well_framed(chunk@) ==> final(self)@ == old(self)@ && r == Err::<
                ReadStep,
                ScannerError,
            >(ScannerError::FramingError),
            chunk@.len() != 0 && well_framed(chunk@) && old(self)@.chunks >= old(self)@.max_chunks
                ==> final(self)@ == old(self)@ && r == Err::<ReadStep, ScannerError>(
                ScannerError::TooManyChunks,
            ),
            chunk@.len() != 0 && well_framed(chunk@) && old(self)@.chunks < old(self)@.max_chunks
                ==> (r matches Ok(ReadStep::More)) && final(self)@ == (ReaderView {
                text: old(self)@.text + chunk_text(chunk@),
                chunks: old(self)@.chunks + 1,
                max_chunks: old(self)@.max_chunks,
            }),
    {
        if chunk.len() == 0 {
            return Ok(ReadStep::Done(self.text.clone()));
        }
        let piece = match chunk_payload(chunk) {
            Ok(p) => p,
            Err(e) => {
                return Err(e);
            },
        };
        if self.chunks >= self.max_chunks {
            return Err(ScannerError::TooManyChunks);
        }
        self.text.append(piece.as_str());
        self.chunks = self.chunks + 1;
        Ok(ReadStep::More)
    }
}

/// Decodes a recorded sequence of reads into the response text, accepting at
/// most `max_chunks` chunks. Reading stops at the first empty read, or at the
/// end of the sequence.
pub fn decode_response(reads: &Vec<Vec<u8>>, max_chunks: usize) -> (r: Result<String, ScannerError>)
    ensures
        match response_of(reads@.map_values(|c: Vec<u8>| c@), max_chunks as nat) {
            Ok(t) => r is Ok && r->Ok_0@ == t,
            Err(e) => r == Err::<String, ScannerError>(e),
        },
{
    let ghost rs = reads@.map_values(|c: Vec<u8>| c@);
    let mut reader = ResponseReader::new(max_chunks);
    let mut i: usize = 0;
    assert(rs.skip(0) == rs);
    proof {
        if let Ok(t) = response_of(rs, max_chunks as nat) {
            assert(Seq::<char>::empty() + t == t);
        }
    }
    while i < reads.len()
        invariant
            rs == reads@.map_values(|c: Vec<u8>| c@),
            i <= reads@.len(),
            reader@.chunks == i,
            reader@.max_chunks == max_chunks,
            response_of(rs, max_chunks as nat) == match response_of(
                rs.skip(i as int),
                (max_chunks - i) as nat,
            ) {
                Ok(t) => Ok(reader@.text + t),
                Err(e) => Err(e),
            },
            i <= max_chunks,
        decreases reads@.len() - i,
    {
        let ghost before = reader@;
        let ghost rest = rs.skip(i as int);
        assert(rest[0] == reads@[i as int]@);
        assert(rest.drop_first() == rs.skip(i + 1));
        match reader.on_read(&reads[i]) {
            Ok(ReadStep::Done(s)) => {
                assert(rest[0].len() == 0);
                assert(response_of(rest, (max_chunks - i) as nat) == Ok::<Seq<char>, ScannerError>(Seq::empty()));
                assert(before.text + Seq::<char>::empty() == before.text);
                return Ok(s);
            },
            Ok(ReadStep::More) => {
                assert(before.text + (chunk_text(rest[0]) + response_of(rs.skip(i + 1), (max_chunks - (i + 1)) as nat)->Ok_0)
                    == (before.text + chunk_text(rest[0])) + response_of(rs.skip(i + 1), (max_chunks - (i + 1)) as nat)->Ok_0);
            },
            Err(e) => {
                return Err(e);
            },
        }
        i = i + 1;
    }
    assert(rs.skip(i as int).len() == 0);
    assert(reader@.text + Seq::<char>::empty() == reader@.text);
    Ok(reader.text_so_far())
}

impl ResponseReader {
    /// The text taken in so far.
    pub fn text_so_far(&self) -> (r: String)
        ensures
            r@ == self@.text,
    {
        self.text.clone()
    }
}

/// A response of well-framed chunks, within the allowed count, followed by an
/// empty read, is the concatenation of the chunks' texts in arrival order.
pub proof fn lemma_response_concatenates(chunks: Seq<Seq<u8>>, max: nat)
    requires
        chunks.len() <= max,
        forall|k: int| 0 <= k < chunks.len() ==> #[trigger] well_framed(chunks[k]),
    ensures
        response_of(chunks.push(Seq::empty()), max) == Ok::<Seq<char>, ScannerError>(
            chunks.map_values(|c: Seq<u8>| chunk_text(c)).flatten(),
        ),
    decreases chunks.len(),
{
    let reads = chunks.push(Seq::empty());
    if chunks.len() == 0 {
        assert(reads[0].len() == 0);
        assert(chunks.map_values(|c: Seq<u8>| chunk_text(c)) =~= Seq::<Seq<char>>::empty());
    } else {
        let tail = chunks.drop_first();
        assert forall|k: int| 0 <= k < tail.len() implies #[trigger] well_framed(tail[k]) by {
            assert(tail[k] == chunks[k + 1]);
        }
        lemma_response_concatenates(tail, (max - 1) as nat);
        assert(reads.drop_first() == tail.push(Seq::empty()));
        assert(well_framed(chunks[0]));
        assert(reads[0] == chunks[0]);
        let texts = chunks.map_values(|c: Seq<u8>| chunk_text(c));
        assert(texts.drop_first() == tail.map_values(|c: Seq<u8>| chunk_text(c)));
        assert(texts.flatten() == texts[0] + texts.drop_first().flatten());
    }
}

} // verus!
