//! One part of a file on its way to the server.

use crate::text::{chars_of, string_of};
use vstd::prelude::*;

verus! {

/// A part that is to be uploaded: where it stands in the file, and where it goes.
#[derive(Debug)]
pub struct ChunkInfo {
    pub part_number: u32,
    pub start_pos: u64,
    pub chunk_size: u64,
    pub url: String,
}

/// A part that is stored.
#[derive(Debug)]
pub struct ChunkUploadResult {
    pub part_number: u32,
    pub etag: String,
}

impl View for ChunkUploadResult {
    type V = (u32, Seq<char>);

    open spec fn view(&self) -> (u32, Seq<char>) {
        (self.part_number, self.etag@)
    }
}

/// The parts and ETags behind a vector of results.
pub open spec fn stored_parts(v: Seq<ChunkUploadResult>) -> Seq<(u32, Seq<char>)> {
    v.map_values(|r: ChunkUploadResult| r@)
}

/// The numbers of a row of parts.
pub open spec fn numbers(parts: Seq<(u32, Seq<char>)>) -> Seq<u32> {
    parts.map_values(|p: (u32, Seq<char>)| p.0)
}

/// A part on its way from the file: what has been read of it, piece by piece.
#[derive(Debug)]
pub struct ChunkRead {
    start_pos: u64,
    chunk_size: usize,
    data: Vec<u8>,
    at_end: bool,
}

impl ChunkRead {
    /// Where the part begins.
    pub closed spec fn start(self) -> int {
        self.start_pos as int
    }

    /// How many bytes are wanted.
    pub closed spec fn size(self) -> int {
        self.chunk_size as int
    }

    /// What has been read.
    pub closed spec fn bytes(self) -> Seq<u8> {
        self.data@
    }

    /// The file has ended before the part was full.
    pub closed spec fn ended(self) -> bool {
        self.at_end
    }

    /// No more is read than is wanted, and every position is representable.
    pub open spec fn wf(self) -> bool {
        self.bytes().len() <= self.size() && self.start() + self.size() <= u64::MAX
    }

    /// What has been read is what stands in `file` from the start of the part on.
    pub open spec fn faithful(self, file: Seq<u8>) -> bool {
        &&& 0 <= self.start() && self.start() + self.bytes().len() <= file.len()
        &&& self.bytes() == file.subrange(self.start(), self.start() + self.bytes().len())
    }

    /// Begins to read a part.
    pub fn new(chunk: &ChunkInfo) -> (r: Self)
        requires
            chunk.start_pos + chunk.chunk_size <= u64::MAX,
            chunk.chunk_size <= usize::MAX,
        ensures
            r.wf(),
            r.start() == chunk.start_pos,
            r.size() == chunk.chunk_size,
            r.bytes().len() == 0,
            !r.ended(),
    {
        ChunkRead {
            start_pos: chunk.start_pos,
            chunk_size: chunk.chunk_size as usize,
            data: Vec::new(),
            at_end: false,
        }
    }

    /// The position to read from and how many bytes to ask for, while more is wanted.
    pub fn wanted(&self) -> (r: Option<(u64, usize)>)
        requires
            self.wf(),
        ensures
            match r {
                Some(w) => {
                    &&& !self.ended()
                    &&& w.0 == self.start() + self.bytes().len()
                    &&& w.1 == self.size() - self.bytes().len()
                    &&& w.1 > 0
                },
                None => self.ended() || self.bytes().len() == self.size(),
            },
    {
        if self.at_end || self.data.len() >= self.chunk_size {
            None
        } else {
            Some((self.start_pos + self.data.len() as u64, self.chunk_size - self.data.len()))
        }
    }

    /// Takes what a read has returned; nothing means that the file has ended.
    pub fn received(&mut self, piece: &[u8])
        requires
            old(self).wf(),
            old(self).bytes().len() + piece@.len() <= old(self).size(),
        ensures
            final(self).wf(),
            final(self).start() == old(self).start(),
            final(self).size() == old(self).size(),
            final(self).bytes() == old(self).bytes() + piece@,
            final(self).ended() == (old(self).ended() || piece@.len() == 0),
    {
        if piece.len() == 0 {
            self.at_end = true;
        }
        let ghost before = self.data@;
        let mut i: usize = 0;
        assert(self.data@ =~= before + piece@.take(0));
        while i < piece.len()
            invariant
                i <= piece@.len(),
                self.data@ == before + piece@.take(i as int),
                self.start_pos == old(self).start_pos,
                self.chunk_size == old(self).chunk_size,
                self.at_end == (old(self).at_end || piece@.len() == 0),
            decreases piece@.len() - i,
        {
            self.data.push(piece[i]);
            assert(self.data@ =~= before + piece@.take(i + 1));
            i += 1;
        }
        assert(piece@.take(piece@.len() as int) =~= piece@);
    }

    /// What was read.
    pub fn finish(self) -> (r: Vec<u8>)
        ensures
            r@ == self.bytes(),
    {
        self.data
    }
}

/// Pieces that are read where they were asked for make up the part as it stands in the file.
pub proof fn lemma_chunk_faithful(before: ChunkRead, piece: Seq<u8>, after: ChunkRead, file: Seq<u8>)
    requires
        before.faithful(file),
        before.start() + before.bytes().len() + piece.len() <= file.len(),
        piece == file.subrange(
            before.start() + before.bytes().len(),
            before.start() + before.bytes().len() + piece.len(),
        ),
        after.start() == before.start(),
        after.bytes() == before.bytes() + piece,
    ensures
        after.faithful(file),
{
    assert(after.bytes() =~= file.subrange(after.start(), after.start() + after.bytes().len()));
}

/// `s` without the quotation marks at its start.
pub open spec fn open_end(s: Seq<char>) -> Seq<char>
    decreases s.len(),
{
    if s.len() > 0 && s[0] == '"' {
        open_end(s.skip(1))
    } else {
        s
    }
}

/// `s` without the quotation marks at its end.
pub open spec fn close_end(s: Seq<char>) -> Seq<char>
    decreases s.len(),
{
    if s.len() > 0 && s.last() == '"' {
        close_end(s.drop_last())
    } else {
        s
    }
}

/// `s` without the quotation marks around it.
pub open spec fn unquoted(s: Seq<char>) -> Seq<char> {
    close_end(open_end(s))
}

/// An ETag without the quotation marks in which servers send it.
pub fn clean_etag(etag: &str) -> (r: String)
    ensures
        r@ == unquoted(etag@),
{
    let v = chars_of(etag);
    let mut a: usize = 0;
    assert(v@.skip(0) =~= v@);
    while a < v.len() && v[a] == '"'
        invariant
            a <= v@.len(),
            open_end(v@) == open_end(v@.skip(a as int)),
        decreases v@.len() - a,
    {
        assert(v@.skip(a as int).skip(1) =~= v@.skip(a + 1));
        a += 1;
    }
    let ghost s = v@.skip(a as int);
    let mut b: usize = v.len();
    assert(v@.subrange(a as int, b as int) =~= s);
    while b > a && v[b - 1] == '"'
        invariant
            a <= b <= v@.len(),
            close_end(s) == close_end(v@.subrange(a as int, b as int)),
        decreases b,
    {
        assert(v@.subrange(a as int, b as int).drop_last() =~= v@.subrange(a as int, b - 1));
        b -= 1;
    }
    let mut kept: Vec<char> = Vec::new();
    let mut i: usize = a;
    while i < b
        invariant
            a <= i <= b <= v@.len(),
            kept@ == v@.subrange(a as int, i as int),
        decreases b - i,
    {
        kept.push(v[i]);
        assert(kept@ =~= v@.subrange(a as int, i + 1));
        i += 1;
    }
    string_of(&kept)
}

} // verus!
