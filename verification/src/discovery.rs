//! Discovery of segment files in a directory.
//!
//! The files that a listing of the directory found are sorted out: those that are not
//! segments by their names are passed over, those that do not hold together are reported,
//! and the others get a manifest.

use vstd::prelude::*;
use crate::cluster::NodeId;
use crate::ordered::{
    insert_sorted, lemma_insert_sorted_at, rank_str, text_before, text_before_connected, text_before_irreflexive,
    text_before_transitive, views, Rank,
};
use crate::storage::{
    law_segment_round_trip, manifest_of, scan_segment, segment_bytes, SegmentError, SegmentErrorView, SegmentId,
    SegmentManifest, SegmentManifestView, SegmentWriter, SegmentWriterView,
};
use crate::text::{chars_of, find_last, last_position, str_eq, text_of};

verus! {

/// The extension of segment files.
pub const SEGMENT_EXTENSION: &'static str = "seg";

/// A file of a directory: its path, whether it is a regular file, and its contents, or why
/// they cannot be read.
#[derive(Debug)]
pub struct FoundFile {
    pub path: String,
    pub is_file: bool,
    pub contents: Result<Vec<u8>, String>,
}

/// The view of a file.
pub struct FileView {
    pub path: Seq<char>,
    pub is_file: bool,
    pub contents: Result<Seq<u8>, Seq<char>>,
}

impl View for FoundFile {
    type V = FileView;

    open spec fn view(&self) -> FileView {
        FileView {
            path: self.path@,
            is_file: self.is_file,
            contents: match self.contents {
                Ok(bytes) => Ok(bytes@),
                Err(text) => Err(text@),
            },
        }
    }
}

/// The segments of a directory, in the order of their paths, the files that are no valid
/// segments, in the order of their paths, and the files that could not be read.
#[derive(Debug, Clone, PartialEq, Eq)]
pub struct SegmentDiscoveryResult {
    pub segments: Vec<SegmentManifest>,
    pub invalid: Vec<String>,
    pub io_errors: Vec<(String, String)>,
}

/// The view of what was discovered.
pub struct DiscoveryView {
    pub segments: Seq<SegmentManifestView>,
    pub invalid: Seq<Seq<char>>,
    pub io_errors: Seq<(Seq<char>, Seq<char>)>,
}

impl View for SegmentDiscoveryResult {
    type V = DiscoveryView;

    open spec fn view(&self) -> DiscoveryView {
        DiscoveryView {
            segments: views(self.segments@),
            invalid: views(self.invalid@),
            io_errors: views(self.io_errors@),
        }
    }
}

/// Nothing discovered.
pub open spec fn nothing_found() -> DiscoveryView {
    DiscoveryView { segments: Seq::empty(), invalid: Seq::empty(), io_errors: Seq::empty() }
}

/// The last component of a path.
pub open spec fn file_name(path: Seq<char>) -> Seq<char> {
    match last_position(path, '/') {
        Some(i) => path.skip(i + 1),
        None => path,
    }
}

/// The position of the dot before the extension of a file name; a leading dot is none.
pub open spec fn extension_dot(name: Seq<char>) -> Option<int> {
    match last_position(name, '.') {
        Some(i) => if i > 0 {
            Some(i)
        } else {
            None
        },
        None => None,
    }
}

/// The extension of a file.
pub open spec fn extension(path: Seq<char>) -> Option<Seq<char>> {
    match extension_dot(file_name(path)) {
        Some(i) => Some(file_name(path).skip(i + 1)),
        None => None,
    }
}

/// The name of a file without its extension.
pub open spec fn file_stem(path: Seq<char>) -> Seq<char> {
    match extension_dot(file_name(path)) {
        Some(i) => file_name(path).take(i),
        None => file_name(path),
    }
}

/// What a file turns out to be.
pub enum Verdict {
    Skipped,
    Segment(SegmentManifestView),
    Invalid,
    Unreadable(Seq<char>),
}

/// The manifest of the segment in a file, named after the file, or what is wrong with it.
pub open spec fn file_manifest(path: Seq<char>, bytes: Seq<u8>) -> Result<SegmentManifestView, SegmentErrorView> {
    match scan_segment(bytes) {
        Ok(records) => Ok(
            manifest_of(
                SegmentWriterView { segment_id: file_stem(path), node_id: "discovery"@, path, records },
            ),
        ),
        Err(e) => Err(e),
    }
}

/// What a file turns out to be: only regular files with the extension of segments count,
/// and of those that are cut off the reading fails.
pub open spec fn verdict(f: FileView) -> Verdict {
    if !f.is_file || extension(f.path) != Some("seg"@) {
        Verdict::Skipped
    } else {
        match f.contents {
            Err(text) => Verdict::Unreadable(text),
            Ok(bytes) => match file_manifest(f.path, bytes) {
                Ok(manifest) => Verdict::Segment(manifest),
                Err(SegmentErrorView::Io(text)) => Verdict::Unreadable(text),
                Err(_) => Verdict::Invalid,
            },
        }
    }
}

/// The order of manifests by their paths.
pub open spec fn manifest_after() -> spec_fn(SegmentManifestView, SegmentManifestView) -> bool {
    |a: SegmentManifestView, b: SegmentManifestView| text_before(b.path, a.path)
}

/// The order of paths.
pub open spec fn path_after() -> spec_fn(Seq<char>, Seq<char>) -> bool {
    |a: Seq<char>, b: Seq<char>| text_before(b, a)
}

/// What was discovered, with one more file.
pub open spec fn with_file(d: DiscoveryView, f: FileView) -> DiscoveryView {
    match verdict(f) {
        Verdict::Skipped => d,
        Verdict::Segment(manifest) => DiscoveryView {
            segments: insert_sorted(d.segments, manifest, manifest_after()),
            ..d
        },
        Verdict::Invalid => DiscoveryView { invalid: insert_sorted(d.invalid, f.path, path_after()), ..d },
        Verdict::Unreadable(text) => DiscoveryView { io_errors: d.io_errors.push((f.path, text)), ..d },
    }
}

/// What is discovered in files.
pub open spec fn discovered(files: Seq<FileView>) -> DiscoveryView
    decreases files.len(),
{
    if files.len() == 0 {
        nothing_found()
    } else {
        with_file(discovered(files.drop_last()), files.last())
    }
}

impl SegmentDiscoveryResult {
    /// Nothing discovered.
    pub fn new() -> (r: Self)
        ensures
            r@ == nothing_found(),
    {
        let r = SegmentDiscoveryResult { segments: Vec::new(), invalid: Vec::new(), io_errors: Vec::new() };
        assert(views(r.segments@) =~= Seq::<SegmentManifestView>::empty());
        assert(views(r.invalid@) =~= Seq::<Seq<char>>::empty());
        assert(views(r.io_errors@) =~= Seq::<(Seq<char>, Seq<char>)>::empty());
        r
    }

    /// Whether nothing was discovered.
    pub fn is_empty(&self) -> (r: bool)
        ensures
            r == (self@.segments.len() == 0 && self@.invalid.len() == 0 && self@.io_errors.len() == 0),
    {
        self.segments.len() == 0 && self.invalid.len() == 0 && self.io_errors.len() == 0
    }

    fn add_segment(&mut self, manifest: SegmentManifest)
        ensures
            final(self)@ == (DiscoveryView {
                segments: insert_sorted(old(self)@.segments, manifest@, manifest_after()),
                ..old(self)@
            }),
    {
        let ghost before = self.segments@;
        let ghost x = manifest@;
        let mut at: usize = self.segments.len();
        while at > 0
            invariant
                at <= self.segments.len(),
                self.segments@ == before,
                self@ == old(self)@,
                x == manifest@,
                forall|i: int| at <= i < before.len() ==> manifest_after()(#[trigger] views(before)[i], x),
            ensures
                at <= self.segments.len(),
                self.segments@ == before,
                self@ == old(self)@,
                forall|i: int| at <= i < before.len() ==> manifest_after()(#[trigger] views(before)[i], x),
                at == 0 || !manifest_after()(views(before)[at - 1], x),
            decreases at,
        {
            assert(views(before)[at - 1] == before[at - 1]@);
            match rank_str(manifest.path.as_str(), self.segments[at - 1].path.as_str()) {
                Rank::Before => {
                    at -= 1;
                },
                Rank::Same => {
                    proof {
                        text_before_irreflexive(x.path);
                    }
                    break;
                },
                Rank::After => {
                    proof {
                        lemma_not_both(x.path, before[at - 1]@.path);
                    }
                    break;
                },
            }
        }
        self.segments.insert(at, manifest);
        proof {
            lemma_insert_sorted_at(views(before), x, manifest_after(), at as int);
            assert(views(self.segments@) =~= views(before).insert(at as int, x));
        }
    }

    fn add_invalid(&mut self, path: String)
        ensures
            final(self)@ == (DiscoveryView {
                invalid: insert_sorted(old(self)@.invalid, path@, path_after()),
                ..old(self)@
            }),
    {
        let ghost before = self.invalid@;
        let ghost x = path@;
        let mut at: usize = self.invalid.len();
        while at > 0
            invariant
                at <= self.invalid.len(),
                self.invalid@ == before,
                self@ == old(self)@,
                x == path@,
                forall|i: int| at <= i < before.len() ==> path_after()(#[trigger] views(before)[i], x),
            ensures
                at <= self.invalid.len(),
                self.invalid@ == before,
                self@ == old(self)@,
                forall|i: int| at <= i < before.len() ==> path_after()(#[trigger] views(before)[i], x),
                at == 0 || !path_after()(views(before)[at - 1], x),
            decreases at,
        {
            assert(views(before)[at - 1] == before[at - 1]@);
            match rank_str(path.as_str(), self.invalid[at - 1].as_str()) {
                Rank::Before => {
                    at -= 1;
                },
                Rank::Same => {
                    proof {
                        text_before_irreflexive(x);
                    }
                    break;
                },
                Rank::After => {
                    proof {
                        lemma_not_both(x, before[at - 1]@);
                    }
                    break;
                },
            }
        }
        self.invalid.insert(at, path);
        proof {
            lemma_insert_sorted_at(views(before), x, path_after(), at as int);
            assert(views(self.invalid@) =~= views(before).insert(at as int, x));
        }
    }

    fn add_unreadable(&mut self, path: String, text: String)
        ensures
            final(self)@ == (DiscoveryView { io_errors: old(self)@.io_errors.push((path@, text@)), ..old(self)@ }),
    {
        let ghost before = self.io_errors@;
        self.io_errors.push((path, text));
        assert(views(self.io_errors@) =~= views(before).push((path@, text@)));
    }

    /// Adds a file.
    pub fn add_file(&mut self, file: FoundFile)
        ensures
            final(self)@ == with_file(old(self)@, file@),
    {
        if !file.is_file || !is_segment_path(file.path.as_str()) {
            return;
        }
        match file.contents {
            Err(text) => self.add_unreadable(file.path, text),
            Ok(bytes) => match validate_and_manifest_segment(file.path.as_str(), bytes) {
                Ok(manifest) => self.add_segment(manifest),
                Err(SegmentError::Io(text)) => self.add_unreadable(file.path, text),
                Err(_) => self.add_invalid(file.path),
            },
        }
    }
}

impl Default for SegmentDiscoveryResult {
    fn default() -> (r: Self)
        ensures
            r@ == nothing_found(),
    {
        SegmentDiscoveryResult::new()
    }
}

proof fn lemma_not_both(a: Seq<char>, b: Seq<char>)
    requires
        text_before(b, a),
    ensures
        !text_before(a, b),
{
    if text_before(a, b) {
        text_before_transitive(a, b, a);
        text_before_irreflexive(a);
    }
}

fn name_start(chars: &Vec<char>) -> (r: usize)
    ensures
        r <= chars.len(),
        chars@.skip(r as int) == file_name(chars@),
{
    assert(chars@.skip(0) =~= chars@);
    match find_last(chars, 0, '/') {
        Some(i) => i + 1,
        None => 0,
    }
}

/// Whether a file is a segment by its name.
pub fn is_segment_path(path: &str) -> (r: bool)
    ensures
        r == (extension(path@) == Some("seg"@)),
{
    let chars = chars_of(path);
    let start: usize = name_start(&chars);
    match find_last(&chars, start, '.') {
        Some(i) => {
            if i == start {
                return false;
            }
            let found = text_of(&chars, i + 1, chars.len());
            assert(found@ =~= file_name(path@).skip(i - start + 1));
            str_eq(found.as_str(), SEGMENT_EXTENSION)
        },
        None => false,
    }
}

fn stem_of(path: &str) -> (r: String)
    ensures
        r@ == file_stem(path@),
{
    let chars = chars_of(path);
    let start: usize = name_start(&chars);
    match find_last(&chars, start, '.') {
        Some(i) => {
            if i == start {
                let whole = text_of(&chars, start, chars.len());
                assert(whole@ =~= file_name(path@));
                return whole;
            }
            let stem = text_of(&chars, start, i);
            assert(stem@ =~= file_name(path@).take(i - start));
            stem
        },
        None => {
            let whole = text_of(&chars, start, chars.len());
            assert(whole@ =~= file_name(path@));
            whole
        },
    }
}

/// The manifest of the segment in a file.
pub fn validate_and_manifest_segment(path: &str, bytes: Vec<u8>) -> (r: Result<SegmentManifest, SegmentError>)
    ensures
        match (file_manifest(path@, bytes@), r) {
            (Ok(m), Ok(manifest)) => manifest@ == m,
            (Err(e), Err(x)) => x@ == e,
            _ => false,
        },
{
    match SegmentWriter::open_append(bytes, path, SegmentId::from(stem_of(path)), NodeId::from("discovery")) {
        Ok(writer) => Ok(writer.seal()),
        Err(e) => Err(e),
    }
}

/// Sorts out the files of one directory.
pub fn discover_segments(files: Vec<FoundFile>) -> (r: SegmentDiscoveryResult)
    ensures
        r@ == discovered(views(files@)),
{
    let ghost all = views(files@);
    let mut result = SegmentDiscoveryResult::new();
    let mut rest = files;
    let ghost mut done: int = 0;
    assert(all.take(0) =~= Seq::<FileView>::empty());
    assert(files@.skip(0) =~= files@);
    while rest.len() > 0
        invariant
            0 <= done <= files@.len(),
            all == views(files@),
            rest@ == files@.skip(done),
            result@ == discovered(all.take(done)),
        decreases rest.len(),
    {
        proof {
            assert(all.take(done + 1).drop_last() =~= all.take(done));
            assert(all.take(done + 1).last() == files@[done]@);
        }
        let file = rest.remove(0);
        result.add_file(file);
        proof {
            assert(rest@ =~= files@.skip(done + 1));
            done = done + 1;
        }
    }
    assert(all.take(files@.len() as int) =~= all);
    result
}

// ---------------------------------------------------------------------------
// Laws
// ---------------------------------------------------------------------------

/// A segment that was written is discovered whole: its manifest counts its records and its
/// bytes.
pub proof fn law_written_segments_are_discovered(path: Seq<char>, payloads: Seq<Seq<u8>>)
    requires
        forall|i: int| 0 <= i < payloads.len() ==> (#[trigger] payloads[i]).len() <= u32::MAX,
        segment_bytes(payloads).len() <= u64::MAX,
    ensures
        file_manifest(path, segment_bytes(payloads)) == Ok::<SegmentManifestView, SegmentErrorView>(
            manifest_of(
                SegmentWriterView { segment_id: file_stem(path), node_id: "discovery"@, path, records: payloads },
            ),
        ),
{
    law_segment_round_trip(payloads);
}

/// Each file with the extension of segments is accounted for once, and no other file is.
pub proof fn law_every_segment_file_is_accounted_for(files: Seq<FileView>)
    ensures
        discovered(files).segments.len() + discovered(files).invalid.len() + discovered(files).io_errors.len()
            == files.filter(|f: FileView| f.is_file && extension(f.path) == Some("seg"@)).len(),
    decreases files.len(),
{
    let counts = |f: FileView| f.is_file && extension(f.path) == Some("seg"@);
    if files.len() == 0 {
        reveal(Seq::filter);
    } else {
        law_every_segment_file_is_accounted_for(files.drop_last());
        reveal(Seq::filter);
        let d = discovered(files.drop_last());
        let f = files.last();
        match verdict(f) {
            Verdict::Segment(m) => lemma_insert_len(d.segments, m, manifest_after()),
            Verdict::Invalid => lemma_insert_len(d.invalid, f.path, path_after()),
            _ => {},
        }
    }
}

proof fn lemma_insert_len<T>(s: Seq<T>, x: T, after: spec_fn(T, T) -> bool)
    ensures
        insert_sorted(s, x, after).len() == s.len() + 1,
    decreases s.len(),
{
    if s.len() > 0 && after(s.last(), x) {
        lemma_insert_len(s.drop_last(), x, after);
    }
}

/// Segments and files that are no segments come in the order of their paths, whatever order
/// the files were found in.
pub proof fn law_discovered_files_are_in_order(files: Seq<FileView>)
    ensures
        forall|i: int, j: int|
            0 <= i < j < discovered(files).segments.len() ==> !text_before(
                (#[trigger] discovered(files).segments[j]).path,
                (#[trigger] discovered(files).segments[i]).path,
            ),
        forall|i: int, j: int|
            0 <= i < j < discovered(files).invalid.len() ==> !text_before(
                #[trigger] discovered(files).invalid[j],
                #[trigger] discovered(files).invalid[i],
            ),
    decreases files.len(),
{
    if files.len() > 0 {
        let d = discovered(files.drop_last());
        let f = files.last();
        law_discovered_files_are_in_order(files.drop_last());
        match verdict(f) {
            Verdict::Segment(m) => {
                let after = manifest_after();
                assert forall|a: SegmentManifestView, b: SegmentManifestView, c: SegmentManifestView| #[trigger]
                    after(a, c) && !#[trigger] after(a, b) implies after(b, c) by {
                    lemma_text_order(c.path, a.path, b.path);
                }
                assert forall|a: SegmentManifestView, b: SegmentManifestView| #[trigger] after(a, b) implies !after(b, a) by {
                    lemma_text_order(b.path, a.path, b.path);
                }
                lemma_insert_keeps_order(d.segments, m, after);
                let all = discovered(files).segments;
                assert forall|i: int, j: int| 0 <= i < j < all.len() implies !text_before(
                    (#[trigger] all[j]).path,
                    (#[trigger] all[i]).path,
                ) by {
                    assert(!after(all[i], all[j]));
                }
            },
            Verdict::Invalid => {
                let after = path_after();
                assert forall|a: Seq<char>, b: Seq<char>, c: Seq<char>| #[trigger]
                    after(a, c) && !#[trigger] after(a, b) implies after(b, c) by {
                    lemma_text_order(c, a, b);
                }
                assert forall|a: Seq<char>, b: Seq<char>| #[trigger] after(a, b) implies !after(b, a) by {
                    lemma_text_order(b, a, b);
                }
                lemma_insert_keeps_order(d.invalid, f.path, after);
                let all = discovered(files).invalid;
                assert forall|i: int, j: int| 0 <= i < j < all.len() implies !text_before(
                    #[trigger] all[j],
                    #[trigger] all[i],
                ) by {
                    assert(!after(all[i], all[j]));
                }
            },
            _ => {},
        }
    }
}

/// A text before another one is before all that are not before that one.
proof fn lemma_text_order(a: Seq<char>, b: Seq<char>, c: Seq<char>)
    requires
        text_before(a, b),
    ensures
        !text_before(c, b) ==> text_before(a, c),
        !text_before(b, a),
{
    text_before_connected(b, c);
    if text_before(b, c) {
        text_before_transitive(a, b, c);
    }
    if text_before(b, a) {
        text_before_transitive(a, b, a);
        text_before_irreflexive(a);
    }
}

spec fn in_order<T>(s: Seq<T>, after: spec_fn(T, T) -> bool) -> bool {
    forall|i: int, j: int| 0 <= i < j < s.len() ==> !#[trigger] after(s[i], s[j])
}

proof fn lemma_insert_keeps_order<T>(s: Seq<T>, x: T, after: spec_fn(T, T) -> bool)
    requires
        in_order(s, after),
        forall|a: T, b: T, c: T| #[trigger] after(a, c) && !#[trigger] after(a, b) ==> after(b, c),
        forall|a: T, b: T| #[trigger] after(a, b) ==> !after(b, a),
    ensures
        in_order(insert_sorted(s, x, after), after),
    decreases s.len(),
{
    let all = insert_sorted(s, x, after);
    if s.len() == 0 || !after(s.last(), x) {
        assert forall|i: int, j: int| 0 <= i < j < all.len() implies !#[trigger] after(all[i], all[j]) by {
            if j == s.len() {
                if i < s.len() - 1 && after(all[i], x) {
                    assert(!after(s[i], s[s.len() - 1]));
                }
            } else {
                assert(!after(s[i], s[j]));
            }
        }
    } else {
        let front = s.drop_last();
        assert forall|i: int, j: int| 0 <= i < j < front.len() implies !#[trigger] after(front[i], front[j]) by {
            assert(!after(s[i], s[j]));
        }
        lemma_insert_keeps_order(front, x, after);
        let y = s.last();
        assert forall|i: int| 0 <= i < front.len() implies !after(#[trigger] front[i], y) by {
            assert(!after(s[i], s[s.len() - 1]));
        }
        let inner = insert_sorted(front, x, after);
        lemma_insert_stays_before(front, x, after, y);
        assert forall|i: int, j: int| 0 <= i < j < all.len() implies !#[trigger] after(all[i], all[j]) by {
            if j < inner.len() {
                assert(!after(inner[i], inner[j]));
            } else {
                assert(!after(inner[i], y));
            }
        }
    }
}

proof fn lemma_insert_stays_before<T>(s: Seq<T>, x: T, after: spec_fn(T, T) -> bool, y: T)
    requires
        forall|i: int| 0 <= i < s.len() ==> !after(#[trigger] s[i], y),
        !after(x, y),
    ensures
        forall|i: int|
            0 <= i < insert_sorted(s, x, after).len() ==> !after(#[trigger] insert_sorted(s, x, after)[i], y),
    decreases s.len(),
{
    if s.len() > 0 && after(s.last(), x) {
        let front = s.drop_last();
        assert forall|i: int| 0 <= i < front.len() implies !after(#[trigger] front[i], y) by {
            assert(!after(s[i], y));
        }
        lemma_insert_stays_before(front, x, after, y);
        assert(!after(s[s.len() - 1], y));
        let (inner, all) = (insert_sorted(front, x, after), insert_sorted(s, x, after));
        assert forall|i: int| 0 <= i < all.len() implies !after(#[trigger] all[i], y) by {
            if i < inner.len() {
                assert(!after(inner[i], y));
            }
        }
    } else {
        let all = insert_sorted(s, x, after);
        assert forall|i: int| 0 <= i < all.len() implies !after(#[trigger] all[i], y) by {
            if i < s.len() {
                assert(!after(s[i], y));
            }
        }
    }
}

proof fn lemma_last_position(a: Seq<char>, c: char, b: Seq<char>)
    requires
        forall|i: int| 0 <= i < b.len() ==> #[trigger] b[i] != c,
    ensures
        last_position(a + seq![c] + b, c) == Some(a.len() as int),
        last_position(b, c) is None,
    decreases b.len(),
{
    let whole = a + seq![c] + b;
    if b.len() == 0 {
        assert(whole.last() == c);
    } else {
        let front = b.drop_last();
        assert(b[b.len() - 1] != c);
        assert forall|i: int| 0 <= i < front.len() implies #[trigger] front[i] != c by {
            assert(front[i] == b[i]);
        }
        lemma_last_position(a, c, front);
        assert(whole.drop_last() =~= a + seq![c] + front);
        assert(whole.last() == b.last());
    }
}

/// The name of a file is what stands behind the last slash; its extension is what stands
/// behind the last dot of the name, and its stem what stands in front of it.
pub proof fn law_file_names(dir: Seq<char>, stem: Seq<char>, ext: Seq<char>)
    requires
        stem.len() > 0,
        forall|i: int| 0 <= i < stem.len() ==> #[trigger] stem[i] != '/',
        forall|i: int| 0 <= i < ext.len() ==> #[trigger] ext[i] != '/' && ext[i] != '.',
    ensures
        ({
            let name = stem + seq!['.'] + ext;
            &&& extension(name) == Some(ext) && file_stem(name) == stem
            &&& extension(dir + seq!['/'] + name) == Some(ext) && file_stem(dir + seq!['/'] + name) == stem
        }),
{
    let name = stem + seq!['.'] + ext;
    let path = dir + seq!['/'] + name;
    assert forall|i: int| 0 <= i < name.len() implies #[trigger] name[i] != '/' by {
        if i < stem.len() {
            assert(name[i] == stem[i]);
        } else if i > stem.len() {
            assert(name[i] == ext[i - stem.len() - 1]);
        }
    }
    lemma_last_position(dir, '/', name);
    lemma_last_position(stem, '.', ext);
    assert(path.skip(dir.len() as int + 1) =~= name);
    assert(name.skip(stem.len() as int + 1) =~= ext);
    assert(name.take(stem.len() as int) =~= stem);
}

/// A file is looked at exactly if it is a file with the extension `seg`: as a segment if its
/// bytes are one, as unreadable if they cannot be read, and as invalid else.
pub proof fn law_verdicts(f: FileView)
    ensures
        verdict(f) is Skipped <==> !f.is_file || extension(f.path) != Some("seg"@),
        verdict(f) matches Verdict::Segment(manifest) ==> {
            &&& f.contents is Ok && scan_segment(f.contents->Ok_0) is Ok
            &&& manifest.path == f.path && manifest.segment_id == file_stem(f.path)
            &&& manifest.record_count == scan_segment(f.contents->Ok_0)->Ok_0.len() as u64
        },
        f.is_file && extension(f.path) == Some("seg"@) ==> {
            &&& f.contents matches Err(text) ==> verdict(f) == Verdict::Unreadable(text)
            &&& f.contents matches Ok(bytes) ==> {
                &&& scan_segment(bytes) is Ok ==> verdict(f) is Segment
                &&& scan_segment(bytes) matches Err(e) ==> {
                    &&& e matches SegmentErrorView::Io(text) ==> verdict(f) == Verdict::Unreadable(text)
                    &&& !(e is Io) ==> verdict(f) is Invalid
                }
            }
        },
{
}

/// A segment is filed with the segments, an invalid file by its path, an unreadable one by
/// its path and what went wrong, and nothing else is.
pub proof fn law_files_are_filed(d: DiscoveryView, f: FileView)
    ensures
        ({
            let after = with_file(d, f);
            &&& verdict(f) is Skipped ==> after == d
            &&& verdict(f) matches Verdict::Segment(manifest) ==> after.segments.len() == d.segments.len() + 1
                && after.segments.contains(manifest) && after.invalid == d.invalid && after.io_errors == d.io_errors
            &&& verdict(f) is Invalid ==> after.invalid.len() == d.invalid.len() + 1 && after.invalid.contains(f.path)
                && after.segments == d.segments && after.io_errors == d.io_errors
            &&& verdict(f) matches Verdict::Unreadable(text) ==> after.io_errors == d.io_errors.push((f.path, text))
                && after.segments == d.segments && after.invalid == d.invalid
        }),
{
    if let Verdict::Segment(manifest) = verdict(f) {
        lemma_inserted_is_there(d.segments, manifest, manifest_after());
    }
    lemma_inserted_is_there(d.invalid, f.path, path_after());
}

proof fn lemma_inserted_is_there<T>(s: Seq<T>, x: T, after: spec_fn(T, T) -> bool)
    ensures
        insert_sorted(s, x, after).len() == s.len() + 1,
        insert_sorted(s, x, after).contains(x),
    decreases s.len(),
{
    let r = insert_sorted(s, x, after);
    if s.len() == 0 || !after(s.last(), x) {
        assert(r[s.len() as int] == x);
    } else {
        let front = insert_sorted(s.drop_last(), x, after);
        lemma_inserted_is_there(s.drop_last(), x, after);
        let i = choose|i: int| 0 <= i < front.len() && front[i] == x;
        assert(r[i] == x);
    }
}

} // verus!
