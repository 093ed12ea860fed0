use std::rc::Rc;

use vstd::prelude::*;

use crate::pos::Pos;
use crate::pos_info::PosInfo;
use crate::source_file::{is_line_index, lemma_line_index_unique, line_of, SourceFile};
use crate::source_line::SourceLine;
use crate::span::Span;
use crate::text::{byte_len, chars_between, columns_between, lemma_byte_len_encoding};
use vstd::utf8::encode_utf8;

verus! {

/// Why a position or a span could not be looked up.
#[derive(Debug, Clone, Copy, PartialEq, Eq, Structural)]
pub enum LookupError {
    /// The position, or the start of the span, is the dummy position.
    DummyPosOrSpan,
    /// The span is the dummy span.
    DummySpan,
    /// No file covers the position.
    OutOfRange,
    /// The two ends of the span lie in different files.
    SpanAcrossFiles,
}

/// The files of a source map, in the order of their positions.
pub struct SourceMapFiles {
    files: Vec<Rc<SourceFile>>,
}

impl SourceMapFiles {
    pub closed spec fn len(&self) -> int {
        self.files@.len() as int
    }
}

impl Default for SourceMapFiles {
    fn default() -> (r: SourceMapFiles)
        ensures
            r.len() == 0,
    {
        SourceMapFiles { files: Vec::new() }
    }
}

/// The registry of the source files of a compilation. It gives each byte of
/// each file a position of its own: files take disjoint ranges, with at
/// least one unused position between two files, and position 0 is never
/// given.
pub struct SourceMap {
    /// The first position not yet given to a file.
    used_pos_space: u64,
    /// The number that the next virtual file gets.
    used_virtual_file_number: u32,
    source_files: SourceMapFiles,
}

/// The start and the next free position when `size` bytes are given out
/// from `used`: one guard position follows each file, so that empty files
/// are told apart too.
pub open spec fn allocation(used: int, size: int) -> (int, int) {
    (used, used + size + 1)
}

/// Position `p` is that of a byte of file `f`.
pub open spec fn holds_pos(f: SourceFile, p: int) -> bool {
    f.start() <= p < f.end()
}

impl SourceMap {
    /// The files, in the order in which they were loaded.
    pub closed spec fn files(&self) -> Seq<Rc<SourceFile>> {
        self.source_files.files@
    }

    pub closed spec fn next_pos(&self) -> int {
        self.used_pos_space as int
    }

    pub closed spec fn next_uid(&self) -> int {
        self.used_virtual_file_number as int
    }

    /// Files lie in increasing order of position, apart from each other,
    /// below the next free position and never at position 0; local paths
    /// and virtual numbers name one file each.
    pub open spec fn wf(&self) -> bool {
        let fs = self.files();
        &&& 1 <= self.next_pos() <= u32::MAX + 1
        &&& forall|i: int| 0 <= i < fs.len() ==> (#[trigger] fs[i]).inv()
        &&& forall|i: int|
            0 <= i < fs.len() ==> 1 <= (#[trigger] fs[i]).start() && fs[i].end() < self.next_pos()
        &&& forall|i: int, j: int| 0 <= i < j < fs.len() ==> (#[trigger] fs[i]).end() < (
        #[trigger] fs[j]).start()
        &&& forall|i: int|
            0 <= i < fs.len() && (#[trigger] fs[i]).spec_path().virtual_id() is Some
                ==> fs[i].spec_path().uid() < self.next_uid()
        &&& forall|i: int, j: int|
            0 <= i < fs.len() && 0 <= j < fs.len() && i != j && (
            #[trigger] fs[i]).spec_path().local_path() is Some ==> fs[i].spec_path().local_path()
                != (#[trigger] fs[j]).spec_path().local_path()
        &&& forall|i: int, j: int|
            0 <= i < fs.len() && 0 <= j < fs.len() && i != j && (
            #[trigger] fs[i]).spec_path().virtual_id() is Some && (
            #[trigger] fs[j]).spec_path().virtual_id() is Some ==> fs[i].spec_path().uid()
                != fs[j].spec_path().uid()
    }

    /// Room is left for a file of `len` bytes.
    pub open spec fn has_room(&self, len: int) -> bool {
        &&& self.next_pos() + len <= u32::MAX
        &&& 4 * len <= usize::MAX
    }

    /// The index of the file that holds position `p`, if any.
    pub open spec fn file_index_at(&self, p: int) -> Option<int> {
        if exists|i: int| 0 <= i < self.files().len() && holds_pos(*#[trigger] self.files()[i], p) {
            Some(choose|i: int| 0 <= i < self.files().len() && holds_pos(*#[trigger] self.files()[i], p))
        } else {
            None
        }
    }

    /// The outcome of looking up position `p`: the index of its file.
    pub open spec fn spec_lookup_pos(&self, p: int) -> Result<int, LookupError> {
        if p == 0 {
            Err(LookupError::DummyPosOrSpan)
        } else {
            match self.file_index_at(p) {
                Some(i) => Ok(i),
                None => Err(LookupError::OutOfRange),
            }
        }
    }

    /// The outcome of looking up the span `[lo, hi)`: the file of its first
    /// and of its last byte, which must be the same.
    pub open spec fn spec_lookup_span(&self, lo: int, hi: int) -> Result<int, LookupError> {
        match self.spec_lookup_pos(lo) {
            Err(e) => Err(e),
            Ok(i) => match self.spec_lookup_pos(hi - 1) {
                Err(e) => Err(e),
                Ok(j) => if i == j {
                    Ok(i)
                } else {
                    Err(LookupError::SpanAcrossFiles)
                },
            },
        }
    }

    pub fn new() -> (r: SourceMap)
        ensures
            r.wf(),
            r.files().len() == 0,
            r.next_pos() == 1,
            r.next_uid() == 0,
    {
        // Position 0 is kept for the dummy span.
        SourceMap {
            used_pos_space: 1,
            used_virtual_file_number: 0,
            source_files: SourceMapFiles::default(),
        }
    }

    /// Gives out `size` bytes of the position space and one guard position
    /// after them, and returns the first.
    fn allocate_pos_space(&mut self, size: usize) -> (r: usize)
        requires
            old(self).wf(),
            old(self).next_pos() + size <= u32::MAX,
        ensures
            final(self).wf(),
            (r as int, final(self).next_pos()) == allocation(old(self).next_pos(), size as int),
            final(self).files() == old(self).files(),
            final(self).next_uid() == old(self).next_uid(),
    {
        let current = self.used_pos_space;
        self.used_pos_space = current + size as u64 + 1;
        proof {
            let fs = self.files();
            assert forall|i: int| 0 <= i < fs.len() implies 1 <= (#[trigger] fs[i]).start()
                && fs[i].end() < self.next_pos() by {}
        }
        current as usize
    }

    fn allocate_virtual_file_number(&mut self) -> (r: u32)
        requires
            old(self).wf(),
            old(self).next_uid() < u32::MAX,
        ensures
            final(self).wf(),
            r == old(self).next_uid(),
            final(self).next_uid() == old(self).next_uid() + 1,
            final(self).files() == old(self).files(),
            final(self).next_pos() == old(self).next_pos(),
    {
        let current = self.used_virtual_file_number;
        self.used_virtual_file_number = current + 1;
        current
    }

    /// Appends a file laid out after every file of the map and below the
    /// next free position.
    fn push_file(&mut self, file: Rc<SourceFile>)
        requires
            old(self).wf(),
            forall|i: int|
                0 <= i < old(self).files().len() ==> (#[trigger] old(self).files()[i]).end()
                    < file.start(),
            file.end() < old(self).next_pos(),
            file.spec_path().virtual_id() is Some ==> file.spec_path().uid()
                < old(self).next_uid(),
            file.spec_path().virtual_id() is Some ==> forall|i: int|
                0 <= i < old(self).files().len() && (
                #[trigger] old(self).files()[i]).spec_path().virtual_id() is Some
                    ==> old(self).files()[i].spec_path().uid()
                    != file.spec_path().uid(),
            file.spec_path().local_path() is Some ==> forall|i: int|
                0 <= i < old(self).files().len() ==> (#[trigger] old(
                self,
            ).files()[i]).spec_path().local_path() != file.spec_path().local_path(),
        ensures
            final(self).wf(),
            final(self).files() == old(self).files().push(file),
            final(self).next_pos() == old(self).next_pos(),
            final(self).next_uid() == old(self).next_uid(),
    {
        proof {
            use_type_invariant(&*file);
        }
        let ghost old_files = self.files();
        self.source_files.files.push(file);
        proof {
            let fs = self.files();
            assert(fs == old_files.push(file));
            assert forall|i: int, j: int| 0 <= i < j < fs.len() implies (#[trigger] fs[i]).end()
                < (#[trigger] fs[j]).start() by {
                if j < old_files.len() {
                    assert(fs[i] == old_files[i] && fs[j] == old_files[j]);
                } else {
                    assert(fs[i] == old_files[i]);
                }
            }
            assert forall|i: int| 0 <= i < fs.len() implies (#[trigger] fs[i]).inv() by {
                if i < old_files.len() {
                    assert(fs[i] == old_files[i]);
                }
            }
            assert forall|i: int|
                0 <= i < fs.len() implies 1 <= (#[trigger] fs[i]).start() && fs[i].end()
                < self.next_pos() by {
                crate::text::lemma_byte_offset_nonneg(file.text(), file.text().len() as int);
                if i < old_files.len() {
                    assert(fs[i] == old_files[i]);
                } else {
                    assert(fs[i] == file);
                }
            }
            assert forall|i: int|
                0 <= i < fs.len() && (#[trigger] fs[i]).spec_path().virtual_id() is Some implies fs[i].spec_path().uid()
                < self.next_uid() by {
                if i < old_files.len() {
                    assert(fs[i] == old_files[i]);
                }
            }
            assert forall|i: int, j: int|
                0 <= i < fs.len() && 0 <= j < fs.len() && i != j && (
                #[trigger] fs[i]).spec_path().local_path() is Some implies fs[i].spec_path().local_path()
                    != (#[trigger] fs[j]).spec_path().local_path() by {
                if i < old_files.len() {
                    assert(fs[i] == old_files[i]);
                }
                if j < old_files.len() {
                    assert(fs[j] == old_files[j]);
                }
            }
            assert forall|i: int, j: int|
                0 <= i < fs.len() && 0 <= j < fs.len() && i != j && (
                #[trigger] fs[i]).spec_path().virtual_id() is Some && (
                #[trigger] fs[j]).spec_path().virtual_id() is Some implies fs[i].spec_path().uid()
                    != fs[j].spec_path().uid() by {
                if i < old_files.len() {
                    assert(fs[i] == old_files[i]);
                }
                if j < old_files.len() {
                    assert(fs[j] == old_files[j]);
                }
            }
        }
    }

    /// Room is left for a file of the given text.
    pub fn has_room_for(&self, src: &String) -> (r: bool)
        ensures
            r == self.has_room(byte_len(src@)),
    {
        let chars = crate::source_file::chars_of(src.as_str());
        let ghost t = src@;
        let n = chars.len();
        let mut bytes: u64 = 0;
        let mut i: usize = 0;
        while i < n
            invariant
                chars@ == t,
                t == src@,
                n == t.len(),
                0 <= i <= n,
                bytes == crate::text::byte_offset(t, i as int),
                bytes <= u32::MAX,
            decreases n - i,
        {
            proof {
                crate::text::lemma_byte_offset_step(t, i as int);
            }
            bytes = bytes + crate::source_file::utf8_width(chars[i]) as u64;
            i = i + 1;
            if bytes > u32::MAX as u64 {
                proof {
                    crate::text::lemma_byte_offset_mono(t, i as int, n as int);
                }
                return false;
            }
        }
        let quarter = (usize::MAX / 4) as u64;
        proof {
            let m = usize::MAX as int;
            let l = bytes as int;
            assert(4 * l <= m <==> l <= m / 4) by (nonlinear_arith)
                requires
                    m >= 0,
                    l >= 0,
            ;
        }
        self.used_pos_space <= u32::MAX as u64 && bytes <= u32::MAX as u64 - self.used_pos_space
            && bytes <= quarter
    }

    /// Another virtual file can be given a number.
    pub fn has_virtual_number_left(&self) -> (r: bool)
        ensures
            r == (self.next_uid() < u32::MAX),
    {
        self.used_virtual_file_number < u32::MAX
    }

    /// Adds a virtual file with the given name and text. Each virtual file
    /// gets a number of its own.
    pub fn load_test_file(&mut self, name: Option<String>, src: String) -> (r: Rc<SourceFile>)
        requires
            old(self).wf(),
            old(self).has_room(byte_len(src@)),
            old(self).next_uid() < u32::MAX,
        ensures
            final(self).wf(),
            r.text() == src@,
            r.start() == old(self).next_pos(),
            r.end() == old(self).next_pos() + byte_len(src@),
            r.spec_path().virtual_id() == Some(
                (
                    match name {
                        Some(n) => Some(n@),
                        None => None,
                    },
                    old(self).next_uid() as u32,
                ),
            ),
            r.spec_path().local_path() is None,
            final(self).files() == old(self).files().push(r),
            final(self).next_pos() == old(self).next_pos() + byte_len(src@) + 1,
            final(self).next_uid() == old(self).next_uid() + 1,
    {
        proof {
            lemma_byte_len_encoding(src@);
        }
        let uid = self.allocate_virtual_file_number();
        let start = self.allocate_pos_space(src.as_str().len());
        let file = Rc::new(
            SourceFile::test_file(Rc::new(src), name, uid, Pos::from_usize(start)),
        );
        proof {
            use_type_invariant(&*file);
        }
        self.push_file(file.clone());
        file
    }

    /// Adds the local file of the given canonical path and contents, or
    /// returns the file already loaded from that path.
    pub fn load_local_file(&mut self, path: String, src: String) -> (r: Rc<SourceFile>)
        requires
            old(self).wf(),
            old(self).has_room(byte_len(src@)),
        ensures
            final(self).wf(),
            match (exists|i: int|
                0 <= i < old(self).files().len() && (#[trigger] old(
                    self,
                ).files()[i]).spec_path().local_path() == Some(path@)) {
                true => {
                    &&& final(self).files() == old(self).files()
                    &&& final(self).next_pos() == old(self).next_pos()
                    &&& exists|i: int|
                        0 <= i < old(self).files().len() && #[trigger] old(self).files()[i] == r
                            && r.spec_path().local_path() == Some(path@)
                },
                false => {
                    &&& r.text() == src@
                    &&& r.start() == old(self).next_pos()
                    &&& r.spec_path().local_path() == Some(path@)
                    &&& final(self).files() == old(self).files().push(r)
                    &&& final(self).next_pos() == old(self).next_pos() + byte_len(src@) + 1
                },
            },
            final(self).next_uid() == old(self).next_uid(),
    {
        proof {
            lemma_byte_len_encoding(src@);
        }
        if let Some(file) = self.find_local_file(&path) {
            return file;
        }
        let start = self.allocate_pos_space(src.as_str().len());
        let file = Rc::new(SourceFile::local_file(path, Rc::new(src), Pos::from_usize(start)));
        proof {
            use_type_invariant(&*file);
        }
        self.push_file(file.clone());
        file
    }

    /// Finds the local file loaded from the given canonical path.
    pub fn find_local_file(&self, path: &String) -> (r: Option<Rc<SourceFile>>)
        requires
            self.wf(),
        ensures
            match r {
                Some(f) => exists|i: int|
                    0 <= i < self.files().len() && #[trigger] self.files()[i] == f
                        && f.spec_path().local_path() == Some(path@),
                None => forall|i: int|
                    0 <= i < self.files().len() ==> (#[trigger] self.files()[i]).spec_path().local_path()
                        != Some(path@),
            },
    {
        let mut i: usize = 0;
        let n = self.source_files.files.len();
        while i < n
            invariant
                n == self.files().len(),
                0 <= i <= n,
                forall|k: int|
                    0 <= k < i ==> (#[trigger] self.files()[k]).spec_path().local_path() != Some(
                        path@,
                    ),
            decreases n - i,
        {
            if self.source_files.files[i].path().is_local_path(path) {
                return Some(self.source_files.files[i].clone());
            }
            i = i + 1;
        }
        None
    }

    /// Creates a source map of one local file, of the given canonical path
    /// and contents.
    pub fn from_file(path: String, src: String) -> (r: SourceMap)
        requires
            1 + byte_len(src@) <= u32::MAX,
            4 * byte_len(src@) <= usize::MAX,
        ensures
            r.wf(),
            r.files().len() == 1,
            r.files()[0].text() == src@,
            r.files()[0].spec_path().local_path() == Some(path@),
    {
        let mut source_map = SourceMap::new();
        source_map.load_local_file(path, src);
        source_map
    }

    /// Creates a source map of one virtual file named `<string>`.
    pub fn from_string(src: String) -> (r: SourceMap)
        requires
            1 + byte_len(src@) <= u32::MAX,
            4 * byte_len(src@) <= usize::MAX,
        ensures
            r.wf(),
            r.files().len() == 1,
            r.files()[0].text() == src@,
            r.files()[0].start() == 1,
            r.files()[0].spec_path().virtual_id() == Some((Some("<string>"@), 0u32)),
            r.files()[0].spec_path().local_path() is None,
    {
        let mut source_map = SourceMap::new();
        source_map.load_test_file(Some(String::from_str("<string>")), src);
        source_map
    }

    /// Each file starts no later than it ends, and files start in increasing
    /// order.
    pub proof fn lemma_files_ordered(&self)
        requires
            self.wf(),
        ensures
            forall|i: int|
                0 <= i < self.files().len() ==> (#[trigger] self.files()[i]).start()
                    <= self.files()[i].end(),
            forall|i: int, j: int|
                0 <= i < j < self.files().len() ==> (#[trigger] self.files()[i]).start() < (
                #[trigger] self.files()[j]).start(),
    {
        let fs = self.files();
        assert forall|i: int| 0 <= i < fs.len() implies (#[trigger] fs[i]).start()
            <= fs[i].end() by {
            crate::text::lemma_byte_offset_nonneg(fs[i].text(), fs[i].text().len() as int);
        }
        assert forall|i: int, j: int| 0 <= i < j < fs.len() implies (#[trigger] fs[i]).start() < (
        #[trigger] fs[j]).start() by {
            crate::text::lemma_byte_offset_nonneg(fs[i].text(), fs[i].text().len() as int);
        }
    }

    /// At most one file holds a position.
    pub proof fn lemma_holder_unique(&self, p: int, i: int, j: int)
        requires
            self.wf(),
            0 <= i < self.files().len(),
            0 <= j < self.files().len(),
            holds_pos(*self.files()[i], p),
            holds_pos(*self.files()[j], p),
        ensures
            i == j,
    {
        if i < j {
            assert(self.files()[i].end() < self.files()[j].start());
        } else if j < i {
            assert(self.files()[j].end() < self.files()[i].start());
        }
    }

    /// Finds the file that holds the position.
    pub fn lookup_file_at_pos(&self, pos: Pos) -> (r: Result<Rc<SourceFile>, LookupError>)
        requires
            self.wf(),
        ensures
            match self.spec_lookup_pos(pos.pos()) {
                Ok(i) => r == Ok::<Rc<SourceFile>, LookupError>(self.files()[i]),
                Err(e) => r == Err::<Rc<SourceFile>, LookupError>(e),
            },
    {
        if pos.is_dummy() {
            return Err(LookupError::DummyPosOrSpan);
        }
        proof {
            self.lemma_files_ordered();
        }
        let ghost fs = self.files();
        let p = pos.to_u32();
        let files = &self.source_files.files;
        let mut lo: usize = 0;
        let mut hi: usize = files.len();
        while lo < hi
            invariant
                fs == self.files(),
                files@ == fs,
                0 <= lo <= hi <= fs.len(),
                p == pos.pos(),
                forall|k: int| 0 <= k < lo ==> (#[trigger] fs[k]).start() <= p,
                forall|k: int| hi <= k < fs.len() ==> p < (#[trigger] fs[k]).start(),
                forall|i: int, j: int|
                    0 <= i < j < fs.len() ==> (#[trigger] fs[i]).start() < (#[trigger] fs[j]).start(),
            decreases hi - lo,
        {
            let mid = lo + (hi - lo) / 2;
            if files[mid].start_pos().to_u32() <= p {
                assert forall|k: int| 0 <= k < mid + 1 implies (#[trigger] fs[k]).start() <= p by {
                    if k < mid {
                        assert(fs[k].start() < fs[mid as int].start());
                    }
                }
                lo = mid + 1;
            } else {
                assert forall|k: int| mid <= k < fs.len() implies p < (#[trigger] fs[k]).start() by {
                    if k > mid {
                        assert(fs[mid as int].start() < fs[k].start());
                    }
                }
                hi = mid;
            }
        }
        if lo == 0 {
            assert forall|i: int| 0 <= i < fs.len() implies !holds_pos(*#[trigger] fs[i], p as int) by {}
            return Err(LookupError::OutOfRange);
        }
        let idx = lo - 1;
        let file = &files[idx];
        if !file.is_empty() && file.contains_pos(pos) {
            proof {
                assert(holds_pos(*fs[idx as int], p as int));
                let i = choose|i: int| 0 <= i < fs.len() && holds_pos(*#[trigger] fs[i], p as int);
                self.lemma_holder_unique(p as int, i, idx as int);
            }
            Ok(file.clone())
        } else {
            proof {
                assert forall|i: int| 0 <= i < fs.len() implies !holds_pos(*#[trigger] fs[i], p as int) by {
                    if i < idx {
                        assert(fs[i].end() < fs[idx as int].start());
                    }
                }
            }
            Err(LookupError::OutOfRange)
        }
    }

    /// Finds the file that holds both the first and the last byte of the
    /// span.
    pub fn lookup_file_at_span(&self, span: Span) -> (r: Result<Rc<SourceFile>, LookupError>)
        requires
            self.wf(),
        ensures
            match self.spec_lookup_span(span.lo(), span.hi()) {
                Ok(i) => r == Ok::<Rc<SourceFile>, LookupError>(self.files()[i]),
                Err(e) => r == Err::<Rc<SourceFile>, LookupError>(e),
            },
    {
        proof {
            use_type_invariant(&span);
        }
        let start_file = self.lookup_file_at_pos(span.start())?;
        let end_file = self.lookup_file_at_pos(span.end().sub_bytes(1))?;
        proof {
            self.lemma_files_ordered();
            let i = self.spec_lookup_pos(span.lo())->Ok_0;
            let j = self.spec_lookup_pos(span.hi() - 1)->Ok_0;
            if i < j {
                assert(self.files()[i].start() < self.files()[j].start());
            } else if j < i {
                assert(self.files()[j].start() < self.files()[i].start());
            }
        }
        if start_file.start_pos().to_u32() == end_file.start_pos().to_u32() {
            Ok(start_file)
        } else {
            Err(LookupError::SpanAcrossFiles)
        }
    }

    pub fn contains_pos(&self, pos: Pos) -> (r: Result<(), LookupError>)
        requires
            self.wf(),
        ensures
            match self.spec_lookup_pos(pos.pos()) {
                Ok(_) => r is Ok,
                Err(e) => r == Err::<(), LookupError>(e),
            },
    {
        match self.lookup_file_at_pos(pos) {
            Ok(_) => Ok(()),
            Err(e) => Err(e),
        }
    }

    pub fn contains_span(&self, span: Span) -> (r: Result<(), LookupError>)
        requires
            self.wf(),
        ensures
            match self.spec_lookup_span(span.lo(), span.hi()) {
                Ok(_) => r is Ok,
                Err(e) => r == Err::<(), LookupError>(e),
            },
    {
        match self.lookup_file_at_span(span) {
            Ok(_) => Ok(()),
            Err(e) => Err(e),
        }
    }

    /// Looks up the file, line, column and display column of a position.
    pub fn lookup_pos_info(&self, pos: Pos) -> (r: Result<PosInfo, LookupError>)
        requires
            self.wf(),
        ensures
            match self.spec_lookup_pos(pos.pos()) {
                Err(e) => r == Err::<PosInfo, LookupError>(e),
                Ok(i) => r is Ok && {
                    let info = r->Ok_0;
                    let f = *self.files()[i];
                    &&& info.spec_file() == f
                    &&& is_line_index(f.line_table(), pos.pos(), info.spec_line() - 1)
                    &&& info.spec_col() == 1 + chars_between(
                        f.text(),
                        f.start(),
                        f.line_table()[info.spec_line() - 1],
                        pos.pos(),
                    )
                    &&& info.spec_col_display() == columns_between(
                        f.text(),
                        f.start(),
                        f.line_table()[info.spec_line() - 1],
                        pos.pos(),
                    )
                },
            },
    {
        let file = self.lookup_file_at_pos(pos)?;
        let (line, col, col_display) = file.lookup_line_col_and_col_display(pos);
        Ok(PosInfo::new(file, line, col, col_display))
    }

    /// Finds the line that holds the position.
    pub fn lookup_line_at_pos(&self, pos: Pos) -> (r: Result<SourceLine, LookupError>)
        requires
            self.wf(),
        ensures
            match self.spec_lookup_pos(pos.pos()) {
                Err(e) => r == Err::<SourceLine, LookupError>(e),
                Ok(i) => r is Ok && r->Ok_0.spec_file() == *self.files()[i] && is_line_index(
                    self.files()[i].line_table(),
                    pos.pos(),
                    r->Ok_0.index(),
                ),
            },
    {
        let file = self.lookup_file_at_pos(pos)?;
        proof {
            use_type_invariant(&*file);
            crate::text::lemma_line_starts(file.text(), file.start());
            crate::text::lemma_byte_offset_mono(file.text(), 0, file.text().len() as int);
        }
        match file.lookup_line_at_pos(pos) {
            Some(line) => Ok(SourceLine::new(file, line as u32)),
            None => Err(LookupError::OutOfRange),
        }
    }

    /// Finds every line that the span covers, from the line of its first
    /// byte to the line of its last.
    pub fn lookup_lines_at_span(&self, span: Span) -> (r: Result<Vec<SourceLine>, LookupError>)
        requires
            self.wf(),
        ensures
            match self.spec_lookup_span(span.lo(), span.hi()) {
                Err(e) => r == Err::<Vec<SourceLine>, LookupError>(e),
                Ok(i) => r is Ok && {
                    let lines = r->Ok_0@;
                    let f = *self.files()[i];
                    let first = line_of(&f, span.lo());
                    let last = line_of(&f, span.hi() - 1);
                    &&& is_line_index(f.line_table(), span.lo(), first)
                    &&& is_line_index(f.line_table(), span.hi() - 1, last)
                    &&& lines.len() == if first <= last {
                        last - first + 1
                    } else {
                        0
                    }
                    &&& forall|k: int|
                        0 <= k < lines.len() ==> (#[trigger] lines[k]).spec_file() == f
                            && lines[k].index() == first + k
                },
            },
    {
        proof {
            use_type_invariant(&span);
        }
        let start_file = self.lookup_file_at_pos(span.start())?;
        let end_file = self.lookup_file_at_pos(span.end().sub_bytes(1))?;
        proof {
            self.lemma_files_ordered();
            let i = self.spec_lookup_pos(span.lo())->Ok_0;
            let j = self.spec_lookup_pos(span.hi() - 1)->Ok_0;
            if i < j {
                assert(self.files()[i].start() < self.files()[j].start());
            } else if j < i {
                assert(self.files()[j].start() < self.files()[i].start());
            }
        }
        if start_file.start_pos().to_u32() != end_file.start_pos().to_u32() {
            return Err(LookupError::SpanAcrossFiles);
        }
        proof {
            use_type_invariant(&*start_file);
            crate::text::lemma_line_starts(start_file.text(), start_file.start());
            crate::text::lemma_byte_offset_mono(start_file.text(), 0, start_file.text().len() as int);
        }
        let first = match start_file.lookup_line_at_pos(span.start()) {
            Some(l) => l,
            None => return Err(LookupError::OutOfRange),
        };
        let last = match start_file.lookup_line_at_pos(span.end().sub_bytes(1)) {
            Some(l) => l,
            None => return Err(LookupError::OutOfRange),
        };
        let ghost t = start_file.line_table();
        proof {
            lemma_line_index_unique(t, span.lo(), first as int, line_of(&*start_file, span.lo()));
            lemma_line_index_unique(t, span.hi() - 1, last as int, line_of(&*start_file, span.hi() - 1));
        }
        let mut lines: Vec<SourceLine> = Vec::new();
        if last < first {
            return Ok(lines);
        }
        let mut line = first;
        while line <= last
            invariant
                first <= line <= last + 1,
                last < t.len(),
                t == start_file.line_table(),
                t.len() <= u32::MAX,
                lines@.len() == line - first,
                forall|k: int|
                    0 <= k < lines@.len() ==> (#[trigger] lines@[k]).spec_file() == *start_file
                        && lines@[k].index() == first + k,
            decreases last + 1 - line,
        {
            lines.push(SourceLine::new(start_file.clone(), line as u32));
            line = line + 1;
        }
        Ok(lines)
    }

    /// The text that the span covers: the characters that begin in it.
    pub fn lookup_source(&self, span: Span) -> (r: Result<String, LookupError>)
        requires
            self.wf(),
        ensures
            match self.spec_lookup_span(span.lo(), span.hi()) {
                Err(e) => r == Err::<String, LookupError>(e),
                Ok(i) => r is Ok && r->Ok_0@ == self.files()[i].text().subrange(
                    self.files()[i].char_index(span.lo()),
                    self.files()[i].char_index(span.hi()),
                ),
            },
    {
        proof {
            use_type_invariant(&span);
        }
        let file = self.lookup_file_at_span(span)?;
        proof {
            use_type_invariant(&*file);
        }
        Ok(file.source_between(span.start(), span.end()))
    }
}

/// Every loaded file spans as many positions as its text has bytes in UTF-8.
pub proof fn lemma_file_span_length(m: &SourceMap, i: int)
    requires
        m.wf(),
        0 <= i < m.files().len(),
    ensures
        m.files()[i].spec_span().hi() - m.files()[i].spec_span().lo() == encode_utf8(
            m.files()[i].text(),
        ).len(),
{
    lemma_byte_len_encoding(m.files()[i].text());
}

/// The spans of two different files are disjoint, with at least one unused
/// position between them.
pub proof fn lemma_file_spans_apart(m: &SourceMap, i: int, j: int)
    requires
        m.wf(),
        0 <= i < m.files().len(),
        0 <= j < m.files().len(),
        i != j,
    ensures
        m.files()[i].spec_span().hi() < m.files()[j].spec_span().lo() || m.files()[j].spec_span().hi()
            < m.files()[i].spec_span().lo(),
{
    if i < j {
        assert(m.files()[i].end() < m.files()[j].start());
    } else {
        assert(m.files()[j].end() < m.files()[i].start());
    }
}

/// Two allocations made one after the other give ranges that do not
/// overlap, with the guard position of the first between them.
pub proof fn lemma_allocations_disjoint(used: int, size1: int, size2: int)
    requires
        0 <= size1,
        0 <= size2,
    ensures
        ({
            let (start1, next1) = allocation(used, size1);
            let (start2, next2) = allocation(next1, size2);
            start1 + size1 < start2 && start2 + size2 < next2
        }),
{
}

/// A position inside a non-empty file is found in that file, whose span
/// holds it.
pub proof fn lemma_lookup_finds_file(m: &SourceMap, i: int, p: int)
    requires
        m.wf(),
        0 <= i < m.files().len(),
        holds_pos(*m.files()[i], p),
    ensures
        m.spec_lookup_pos(p) == Ok::<int, LookupError>(i),
        m.files()[i].spec_span().lo() <= p <= m.files()[i].spec_span().hi(),
{
    let j = choose|j: int| 0 <= j < m.files().len() && holds_pos(*#[trigger] m.files()[j], p);
    m.lemma_holder_unique(p, i, j);
}

} // verus!
