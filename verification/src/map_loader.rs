//! Map archives: a `.tar.zst` file is decompressed and unpacked into files
//! keyed by their path inside the archive; `spawn_points.txt` gives the
//! spawn locations, one "x y z" per line.
use std::io::Read;
use vstd::prelude::*;
use crate::protocol::MapUrlMsg;
use crate::utf8::{decode_lossy, utf8_lossy};
use crate::text::{leading_words, line_end, raw_lines, string_from, to_chars, words};

verus! {

/// What decompressing the Zstandard stream `compressed` gives: the bytes,
/// or the decoder's error message.
pub uninterp spec fn zstd_decoded(compressed: Seq<u8>) -> Result<Seq<u8>, Seq<char>>;

/// What unpacking the tar archive `archive` gives: every entry's raw path
/// bytes and contents in archive order, or the reader's error message.
pub uninterp spec fn tar_raw_listing(archive: Seq<u8>) -> Result<Seq<(Seq<u8>, Seq<u8>)>, Seq<char>>;

/// Decompresses one Zstandard frame with `ruzstd::decoding::StreamingDecoder`
/// (created with `StreamingDecoder::new`, then read to the end). Claimed:
/// the result is the one `zstd_decoded` names for these bytes, with an
/// error's `Display` text as the message. Not claimed: that the decoder
/// returns at all on every malformed frame; ruzstd's decoder holds
/// assertions that stop the program, and its authors fuzz it to find the
/// inputs that reach them.
#[verifier::external_body]
fn zstd_decompress(compressed: &[u8]) -> (r: Result<Vec<u8>, String>)
    ensures
        match zstd_decoded(compressed@) {
            Ok(b) => r is Ok && r->Ok_0@ == b,
            Err(e) => r is Err && r->Err_0@ == e,
        },
{
    let mut decoder = ruzstd::decoding::StreamingDecoder::new(compressed).map_err(|e| e.to_string())?;
    let mut out = Vec::new();
    decoder.read_to_end(&mut out).map_err(|e| e.to_string())?;
    Ok(out)
}

/// The views of path/contents pairs.
pub open spec fn pairs_view(v: Seq<(String, Vec<u8>)>) -> Seq<(Seq<char>, Seq<u8>)> {
    v.map_values(|e: (String, Vec<u8>)| (e.0@, e.1@))
}

/// The views of raw path/contents pairs.
pub open spec fn raw_pairs_view(v: Seq<(Vec<u8>, Vec<u8>)>) -> Seq<(Seq<u8>, Seq<u8>)> {
    v.map_values(|e: (Vec<u8>, Vec<u8>)| (e.0@, e.1@))
}

/// Reads every entry of a tar archive with `tar::Archive::entries`: its
/// raw path (`Entry::path_bytes`, the same on every platform) and its
/// contents (read to the end, for every entry, directories included, so a
/// failure to read an entry that names no file is an error too).
/// Claimed: the result is the one `tar_raw_listing` names for these bytes,
/// with an error's `Display` text as the message.
#[verifier::external_body]
fn tar_entries(archive: Vec<u8>) -> (r: Result<Vec<(Vec<u8>, Vec<u8>)>, String>)
    ensures
        match tar_raw_listing(archive@) {
            Ok(l) => r is Ok && raw_pairs_view(r->Ok_0@) == l,
            Err(e) => r is Err && r->Err_0@ == e,
        },
{
    let mut tar = tar::Archive::new(std::io::Cursor::new(archive));
    let mut out = Vec::new();
    for entry in tar.entries().map_err(|e| e.to_string())? {
        let mut entry = entry.map_err(|e| e.to_string())?;
        let path = entry.path_bytes().into_owned();
        let mut data = Vec::new();
        entry.read_to_end(&mut data).map_err(|e| e.to_string())?;
        out.push((path, data));
    }
    Ok(out)
}

/// `s` without every leading `./`, as `str::trim_start_matches("./")`.
pub open spec fn strip_dot_slash(s: Seq<char>) -> Seq<char>
    decreases s.len(),
{
    if s.len() >= 2 && s[0] == '.' && s[1] == '/' {
        strip_dot_slash(s.skip(2))
    } else {
        s
    }
}

/// `s` with every backslash turned into a slash.
pub open spec fn forward_slashes(s: Seq<char>) -> Seq<char> {
    s.map_values(|c: char| if c == '\\' { '/' } else { c })
}

/// The key a raw archive path is stored under: leading `./` removed, then
/// backslashes turned into slashes.
pub open spec fn archive_key(raw: Seq<char>) -> Seq<char> {
    forward_slashes(strip_dot_slash(raw))
}

/// Number of characters after the last `/` of `p`.
pub open spec fn last_part_len(p: Seq<char>) -> nat
    decreases p.len(),
{
    if p.len() == 0 || p.last() == '/' {
        0
    } else {
        1 + last_part_len(p.drop_last())
    }
}

pub proof fn lemma_last_part_len_bound(p: Seq<char>)
    ensures
        last_part_len(p) <= p.len(),
        last_part_len(p) < p.len() ==> p[p.len() - last_part_len(p) - 1] == '/',
    decreases p.len(),
{
    if p.len() > 0 && p.last() != '/' {
        lemma_last_part_len_bound(p.drop_last());
    }
}

/// Whether the path `p` (with `/` separators) names a file, as
/// `Path::file_name` returning `Some` on Unix: its last component, after
/// dropping empty and `.` parts, exists and is not `..`.
pub open spec fn has_file_name(p: Seq<char>) -> bool
    decreases p.len(),
{
    let n = last_part_len(p);
    let part = p.skip(p.len() - n);
    proof {
        lemma_last_part_len_bound(p);
    }
    if part.len() == 0 || (part.len() == 1 && part[0] == '.') {
        if n == p.len() {
            false
        } else {
            has_file_name(p.take(p.len() - n - 1))
        }
    } else {
        !(part.len() == 2 && part[0] == '.' && part[1] == '.')
    }
}

/// The key an entry's raw path is stored under: the path decoded as
/// UTF-8 (ill-formed sequences become U+FFFD, as `to_string_lossy` does on
/// Unix), then made an archive key.
pub open spec fn entry_key(raw: Seq<u8>) -> Seq<char> {
    archive_key(utf8_lossy(raw))
}

/// The archive's files: each entry with a file name is stored under its
/// key; a later entry with the same key replaces an earlier one.
pub open spec fn files_of(entries: Seq<(Seq<u8>, Seq<u8>)>) -> Map<Seq<char>, Seq<u8>>
    decreases entries.len(),
{
    if entries.len() == 0 {
        Map::empty()
    } else {
        let prev = files_of(entries.drop_last());
        let k = entry_key(entries.last().0);
        if has_file_name(k) {
            prev.insert(k, entries.last().1)
        } else {
            prev
        }
    }
}

/// Files extracted from a map archive, keyed by their path inside it.
pub struct ExtractedMap {
    files: Vec<(String, Vec<u8>)>,
}

/// The map that a list of distinct-keyed pairs stands for.
pub open spec fn map_of(s: Seq<(Seq<char>, Seq<u8>)>) -> Map<Seq<char>, Seq<u8>>
    decreases s.len(),
{
    if s.len() == 0 {
        Map::empty()
    } else {
        map_of(s.drop_last()).insert(s.last().0, s.last().1)
    }
}

/// No key occurs twice in `s`.
pub open spec fn distinct_keys(s: Seq<(Seq<char>, Seq<u8>)>) -> bool {
    forall|i: int, j: int| 0 <= i < j < s.len() ==> (#[trigger] s[i]).0 != (#[trigger] s[j]).0
}

pub proof fn lemma_map_of_dom(s: Seq<(Seq<char>, Seq<u8>)>)
    ensures
        forall|k: Seq<char>| #[trigger]
            map_of(s).contains_key(k) <==> exists|i: int| 0 <= i < s.len() && s[i].0 == k,
    decreases s.len(),
{
    if s.len() > 0 {
        lemma_map_of_dom(s.drop_last());
        assert forall|k: Seq<char>| #[trigger] map_of(s).contains_key(k) implies exists|i: int|
            0 <= i < s.len() && s[i].0 == k by {
            if k != s.last().0 {
                assert(map_of(s.drop_last()).contains_key(k));
                let i = choose|i: int| 0 <= i < s.drop_last().len() && s.drop_last()[i].0 == k;
                assert(s[i].0 == k);
            } else {
                assert(s[s.len() - 1].0 == k);
            }
        }
        assert forall|k: Seq<char>|
            (exists|i: int| 0 <= i < s.len() && s[i].0 == k) implies #[trigger] map_of(
            s,
        ).contains_key(k) by {
            let i = choose|i: int| 0 <= i < s.len() && s[i].0 == k;
            if i < s.len() - 1 {
                assert(s.drop_last()[i].0 == k);
                assert(map_of(s.drop_last()).contains_key(k));
            }
        }
    }
}

pub proof fn lemma_map_of_at(s: Seq<(Seq<char>, Seq<u8>)>, i: int)
    requires
        distinct_keys(s),
        0 <= i < s.len(),
    ensures
        map_of(s).contains_key(s[i].0),
        map_of(s)[s[i].0] == s[i].1,
    decreases s.len(),
{
    if i < s.len() - 1 {
        assert(distinct_keys(s.drop_last()));
        assert(s.drop_last()[i] == s[i]);
        lemma_map_of_at(s.drop_last(), i);
        assert(s[i].0 != s[s.len() - 1].0);
    }
}

pub proof fn lemma_map_of_update(s: Seq<(Seq<char>, Seq<u8>)>, i: int, v: Seq<u8>)
    requires
        distinct_keys(s),
        0 <= i < s.len(),
    ensures
        map_of(s.update(i, (s[i].0, v))) == map_of(s).insert(s[i].0, v),
        distinct_keys(s.update(i, (s[i].0, v))),
    decreases s.len(),
{
    let t = s.update(i, (s[i].0, v));
    if i == s.len() - 1 {
        assert(t.drop_last() =~= s.drop_last());
        assert(map_of(t) =~= map_of(s).insert(s[i].0, v));
    } else {
        assert(distinct_keys(s.drop_last()));
        assert(s.drop_last()[i] == s[i]);
        lemma_map_of_update(s.drop_last(), i, v);
        assert(t.drop_last() =~= s.drop_last().update(i, (s[i].0, v)));
        assert(s[i].0 != s.last().0);
        assert(map_of(t) =~= map_of(s).insert(s[i].0, v));
    }
    assert forall|a: int, b: int| 0 <= a < b < t.len() implies (#[trigger] t[a]).0 != (
    #[trigger] t[b]).0 by {
        assert(t[a].0 == s[a].0);
        assert(t[b].0 == s[b].0);
    }
}

impl View for ExtractedMap {
    type V = Map<Seq<char>, Seq<u8>>;

    closed spec fn view(&self) -> Map<Seq<char>, Seq<u8>> {
        map_of(pairs_view(self.files@))
    }
}

impl ExtractedMap {
    /// The invariant: no path is stored twice.
    pub closed spec fn wf(&self) -> bool {
        distinct_keys(pairs_view(self.files@))
    }

    pub fn new() -> (m: Self)
        ensures
            m.wf(),
            m@ == Map::<Seq<char>, Seq<u8>>::empty(),
    {
        ExtractedMap { files: Vec::new() }
    }

    /// Stores `data` under `path`, replacing what was stored there.
    pub fn insert(&mut self, path: String, data: Vec<u8>)
        requires
            old(self).wf(),
        ensures
            final(self).wf(),
            final(self)@ == old(self)@.insert(path@, data@),
    {
        let ghost s = pairs_view(self.files@);
        let mut i: usize = 0;
        while i < self.files.len()
            invariant
                i <= self.files.len(),
                s == pairs_view(self.files@),
                self.files@ == old(self).files@,
                distinct_keys(s),
                forall|k: int| 0 <= k < i ==> s[k].0 != path@,
            decreases self.files.len() - i,
        {
            if self.files[i].0 == path {
                proof {
                    lemma_map_of_update(s, i as int, data@);
                }
                let ghost key = path@;
                let ghost value = data@;
                assert(s[i as int].0 == key);
                self.files.set(i, (path, data));
                assert(pairs_view(self.files@) =~= s.update(i as int, (s[i as int].0, value)));
                assert(self@ == map_of(s).insert(key, value));
                return;
            }
            i = i + 1;
        }
        let ghost p = (path@, data@);
        self.files.push((path, data));
        proof {
            assert(pairs_view(self.files@) =~= s.push(p));
            assert(s.push(p).drop_last() =~= s);
            let t = s.push(p);
            assert forall|a: int, b: int| 0 <= a < b < t.len() implies (#[trigger] t[a]).0 != (
            #[trigger] t[b]).0 by {
                if b == t.len() - 1 {
                    assert(t[a] == s[a]);
                } else {
                    assert(t[a] == s[a]);
                    assert(t[b] == s[b]);
                }
            }
        }
    }

    /// The contents stored under `path`, if any.
    pub fn get(&self, path: &str) -> (r: Option<&Vec<u8>>)
        requires
            self.wf(),
        ensures
            self@.contains_key(path@) ==> r is Some && r->0@ == self@[path@],
            !self@.contains_key(path@) ==> r is None,
    {
        let key = string_from(path);
        let ghost s = pairs_view(self.files@);
        proof {
            lemma_map_of_dom(s);
        }
        let mut i: usize = 0;
        while i < self.files.len()
            invariant
                i <= self.files.len(),
                s == pairs_view(self.files@),
                distinct_keys(s),
                key@ == path@,
                forall|k: int| 0 <= k < i ==> s[k].0 != path@,
            decreases self.files.len() - i,
        {
            if self.files[i].0 == key {
                proof {
                    lemma_map_of_at(s, i as int);
                }
                return Some(&self.files[i].1);
            }
            i = i + 1;
        }
        None
    }

    /// Number of files.
    pub fn len(&self) -> (n: usize)
        requires
            self.wf(),
        ensures
            n == self@.dom().len(),
    {
        proof {
            lemma_map_of_len(pairs_view(self.files@));
        }
        self.files.len()
    }

    /// Every stored file, as path and contents.
    pub fn entries(&self) -> (e: &Vec<(String, Vec<u8>)>)
        requires
            self.wf(),
        ensures
            map_of(pairs_view(e@)) == self@,
            distinct_keys(pairs_view(e@)),
    {
        &self.files
    }
}

pub proof fn lemma_map_of_len(s: Seq<(Seq<char>, Seq<u8>)>)
    requires
        distinct_keys(s),
    ensures
        map_of(s).dom().len() == s.len(),
        map_of(s).dom().finite(),
    decreases s.len(),
{
    if s.len() > 0 {
        assert(distinct_keys(s.drop_last()));
        lemma_map_of_len(s.drop_last());
        lemma_map_of_dom(s.drop_last());
        assert(!map_of(s.drop_last()).contains_key(s.last().0)) by {
            if map_of(s.drop_last()).contains_key(s.last().0) {
                let i = choose|i: int|
                    0 <= i < s.drop_last().len() && s.drop_last()[i].0 == s.last().0;
                assert(s[i].0 == s[s.len() - 1].0);
            }
        }
    } else {
        assert(map_of(s).dom() =~= Set::<Seq<char>>::empty());
    }
}

/// Number of leading characters of `v` that `strip_dot_slash` removes.
fn dot_slash_prefix(v: &Vec<char>) -> (i: usize)
    ensures
        i <= v.len(),
        strip_dot_slash(v@) == v@.skip(i as int),
{
    let mut i: usize = 0;
    assert(v@.skip(0) =~= v@);
    while v.len() - i >= 2 && v[i] == '.' && v[i + 1] == '/'
        invariant
            i <= v.len(),
            strip_dot_slash(v@) == strip_dot_slash(v@.skip(i as int)),
        decreases v.len() - i,
    {
        proof {
            let t = v@.skip(i as int);
            assert(t[0] == v@[i as int]);
            assert(t[1] == v@[i + 1]);
            assert(t.skip(2) =~= v@.skip(i + 2));
        }
        i = i + 2;
    }
    proof {
        let t = v@.skip(i as int);
        if t.len() >= 2 {
            assert(t[0] == v@[i as int]);
            assert(t[1] == v@[i + 1]);
        }
    }
    i
}

/// The string of `v[from..]` with backslashes turned into slashes.
fn with_forward_slashes(v: &Vec<char>, from: usize) -> (k: String)
    requires
        from <= v.len(),
    ensures
        k@ == forward_slashes(v@.skip(from as int)),
{
    let mut k = String::new();
    let mut j = from;
    while j < v.len()
        invariant
            from <= j <= v.len(),
            k@ == forward_slashes(v@.subrange(from as int, j as int)),
        decreases v.len() - j,
    {
        let c = v[j];
        let d = if c == '\\' {
            '/'
        } else {
            c
        };
        crate::text::push_char(&mut k, d);
        assert(forward_slashes(v@.subrange(from as int, j + 1)) =~= forward_slashes(
            v@.subrange(from as int, j as int),
        ).push(d));
        j = j + 1;
    }
    assert(v@.subrange(from as int, v.len() as int) =~= v@.skip(from as int));
    k
}

/// The key of a raw archive path: every leading `./` removed, then
/// backslashes turned into slashes.
pub fn normalize_archive_path(raw: &str) -> (k: String)
    ensures
        k@ == archive_key(raw@),
{
    let v = to_chars(raw);
    let i = dot_slash_prefix(&v);
    with_forward_slashes(&v, i)
}

/// Whether the path names a file (see `has_file_name`).
pub fn path_has_file_name(p: &str) -> (b: bool)
    ensures
        b == has_file_name(p@),
{
    let v = to_chars(p);
    let mut end = v.len();
    assert(v@.take(end as int) =~= v@);
    loop
        invariant
            end <= v.len(),
            v@ == p@,
            has_file_name(v@) == has_file_name(v@.take(end as int)),
        decreases end,
    {
        let ghost q = v@.take(end as int);
        let mut start = end;
        while start > 0 && v[start - 1] != '/'
            invariant
                start <= end <= v.len(),
                q == v@.take(end as int),
                last_part_len(q) == (end - start) + last_part_len(v@.take(start as int)),
                forall|k: int| start <= k < end ==> v@[k] != '/',
            decreases start,
        {
            proof {
                let r = v@.take(start as int);
                assert(r.last() == v@[start - 1]);
                assert(r.drop_last() =~= v@.take(start - 1));
            }
            start = start - 1;
        }
        proof {
            let r = v@.take(start as int);
            if start > 0 {
                assert(r.last() == v@[start - 1]);
            }
            assert(last_part_len(r) == 0);
            lemma_last_part_len_bound(q);
            assert(q.skip(q.len() - last_part_len(q)) =~= v@.subrange(start as int, end as int));
        }
        let n = end - start;
        let is_dot = n == 1 && v[start] == '.';
        let is_dotdot = n == 2 && v[start] == '.' && v[start + 1] == '.';
        proof {
            let part = v@.subrange(start as int, end as int);
            if n >= 1 {
                assert(part[0] == v@[start as int]);
            }
            if n >= 2 {
                assert(part[1] == v@[start + 1]);
            }
        }
        proof {
            let part = q.skip(q.len() - last_part_len(q));
            assert(part =~= v@.subrange(start as int, end as int));
            assert(last_part_len(q) == n);
        }
        if n == 0 || is_dot {
            if start == 0 {
                assert(has_file_name(q) == false);
                return false;
            }
            assert(q.take(q.len() - n - 1) =~= v@.take(start - 1));
            end = start - 1;
        } else {
            assert(has_file_name(q) == !is_dotdot);
            return !is_dotdot;
        }
    }
}

/// The files of an archive listing: each entry whose key has a file name
/// is stored under its key; later entries replace earlier ones.
pub fn collect_archive_files(entries: Vec<(Vec<u8>, Vec<u8>)>) -> (m: ExtractedMap)
    ensures
        m.wf(),
        m@ == files_of(raw_pairs_view(entries@)),
{
    let ghost all = raw_pairs_view(entries@);
    let mut m = ExtractedMap::new();
    for e in it: entries
        invariant
            m.wf(),
            m@ == files_of(raw_pairs_view(it.seq()).take(it.index())),
    {
        let (raw, data) = e;
        let path = decode_lossy(&raw);
        let key = normalize_archive_path(path.as_str());
        proof {
            let ps = raw_pairs_view(it.seq());
            assert(ps.take(it.index() + 1).drop_last() =~= ps.take(it.index()));
            assert(ps.take(it.index() + 1).last() == (raw@, data@));
        }
        if path_has_file_name(key.as_str()) {
            m.insert(key, data);
        }
    }
    assert(raw_pairs_view(entries@).take(all.len() as int) =~= all);
    m
}

/// Decompresses and unpacks a `.tar.zst` map archive into its files.
pub open spec fn extracted(compressed: Seq<u8>) -> Result<Map<Seq<char>, Seq<u8>>, Seq<char>> {
    match zstd_decoded(compressed) {
        Err(e) => Err(e),
        Ok(tar) => match tar_raw_listing(tar) {
            Err(e) => Err(e),
            Ok(entries) => Ok(files_of(entries)),
        },
    }
}

/// Decompresses a `.tar.zst` map archive and collects its files. Entries
/// whose path names no file (such as `./`) are left out; a directory entry
/// such as `textures/` still names a file for `Path::file_name` and is kept,
/// with no contents.
pub fn extract_archive(compressed: &[u8]) -> (r: Result<ExtractedMap, String>)
    ensures
        match extracted(compressed@) {
            Ok(files) => r is Ok && r->Ok_0.wf() && r->Ok_0@ == files,
            Err(e) => r is Err && r->Err_0@ == e,
        },
{
    let tar_bytes = match zstd_decompress(compressed) {
        Ok(b) => b,
        Err(e) => {
            return Err(e);
        },
    };
    let entries = match tar_entries(tar_bytes) {
        Ok(l) => l,
        Err(e) => {
            return Err(e);
        },
    };
    Ok(collect_archive_files(entries))
}

/// The first three words of each line of the spawn-point text that has at
/// least three.
pub open spec fn spawn_fields(lines: Seq<Seq<char>>) -> Seq<Seq<Seq<char>>>
    decreases lines.len(),
{
    if lines.len() == 0 {
        Seq::empty()
    } else {
        let w = words(lines[0]);
        let rest = spawn_fields(lines.drop_first());
        if w.len() >= 3 {
            seq![w.take(3)] + rest
        } else {
            rest
        }
    }
}

pub proof fn lemma_raw_lines_step(s: Seq<char>, p: int, e: int)
    requires
        0 <= p < s.len(),
        p <= e <= s.len(),
        e - p == crate::text::line_len(s.skip(p)),
    ensures
        e == s.len() ==> raw_lines(s.skip(p)) == seq![s.subrange(p, e)],
        e < s.len() ==> raw_lines(s.skip(p)) == seq![s.subrange(p, e)] + raw_lines(s.skip(e + 1)),
{
    let t = s.skip(p);
    assert(t.len() > 0);
    if e == s.len() {
        assert(t =~= s.subrange(p, e));
    } else {
        assert(t.take(e - p) =~= s.subrange(p, e));
        assert(t.skip(e - p + 1) =~= s.skip(e + 1));
    }
}

/// The coordinate fields of `spawn_points.txt`: for every line with at
/// least three whitespace-separated words, its first three (further words
/// are ignored; lines with fewer are skipped).
pub fn spawn_point_fields(text: &str) -> (r: Vec<Vec<String>>)
    ensures
        r@.len() == spawn_fields(raw_lines(text@)).len(),
        forall|k: int|
            0 <= k < r@.len() ==> (#[trigger] r@[k])@.map_values(|w: String| w@) == spawn_fields(
                raw_lines(text@),
            )[k],
{
    let v = to_chars(text);
    let ghost s = v@;
    let mut out: Vec<Vec<String>> = Vec::new();
    let mut p: usize = 0;
    assert(s.skip(0) =~= s);
    assert(fields_view(out@) + spawn_fields(raw_lines(s.skip(0))) =~= spawn_fields(raw_lines(s)));
    while p < v.len()
        invariant
            s == v@,
            p <= v.len(),
            spawn_fields(raw_lines(s)) == fields_view(out@) + spawn_fields(
                raw_lines(s.skip(p as int)),
            ),
        decreases v.len() - p,
    {
        let e = line_end(&v, p);
        let fields = leading_words(&v, p, e, 3);
        let next = if e < v.len() {
            e + 1
        } else {
            e
        };
        let ghost line = s.subrange(p as int, e as int);
        let ghost tail = raw_lines(s.skip(next as int));
        let ghost w = words(line);
        proof {
            lemma_raw_lines_step(s, p as int, e as int);
            let ls = raw_lines(s.skip(p as int));
            if e == v.len() {
                assert(s.skip(next as int) =~= Seq::<char>::empty());
                assert(tail =~= Seq::<Seq<char>>::empty());
            }
            assert(ls =~= seq![line] + tail);
            assert(ls[0] == line);
            assert(ls.drop_first() =~= tail);
        }
        let ghost before = out@;
        if fields.len() == 3 {
            out.push(fields);
        }
        proof {
            let ls = raw_lines(s.skip(p as int));
            if w.len() >= 3 {
                assert(fields@.map_values(|x: String| x@) =~= w.take(3));
                assert(fields_view(out@) =~= fields_view(before).push(w.take(3)));
                assert(spawn_fields(ls) == seq![w.take(3)] + spawn_fields(tail));
                assert(fields_view(before) + (seq![w.take(3)] + spawn_fields(tail)) =~= fields_view(
                    out@,
                ) + spawn_fields(tail));
            } else {
                assert(spawn_fields(ls) == spawn_fields(tail));
                assert(out@ == before);
            }
        }
        p = next;
    }
    proof {
        assert(s.skip(p as int).len() == 0);
        assert(raw_lines(s.skip(p as int)) =~= Seq::<Seq<char>>::empty());
        assert(spawn_fields(raw_lines(s)) =~= fields_view(out@));
        assert forall|k: int| 0 <= k < out@.len() implies (#[trigger] out@[k])@.map_values(
            |x: String| x@,
        ) == spawn_fields(raw_lines(s))[k] by {
            assert(fields_view(out@)[k] == out@[k]@.map_values(|x: String| x@));
        }
    }
    out
}

/// The views of a list of word lists.
pub open spec fn fields_view(o: Seq<Vec<String>>) -> Seq<Seq<Seq<char>>> {
    o.map_values(|f: Vec<String>| f@.map_values(|x: String| x@))
}

/// Where the map loader is: idle, or waiting for a map address, a
/// download, the scene's assets, or its colliders.
#[derive(Clone, Copy, Debug, PartialEq, Eq, Structural)]
pub enum MapLoadPhase {
    Idle,
    WaitingForServer,
    Downloading,
    LoadingAssets,
    SettingUpPhysics,
}

/// What happens to the map loader.
#[derive(Clone, Copy, Debug, PartialEq, Eq, Structural)]
pub enum MapLoadEvent {
    /// The game entered play.
    EnteredPlaying,
    /// The wait for a map address ran out (the server has no map).
    WaitTimedOut,
    /// The server sent a map address.
    UrlReceived,
    /// The download or extraction failed.
    DownloadFailed,
    /// The archive was extracted; its scene is loading.
    DownloadSucceeded,
    /// The scene finished loading and was spawned.
    SceneLoaded,
    /// Colliders exist and the player stands on a spawn point.
    CollidersReady,
}

/// What the loading overlay does.
#[derive(Clone, Copy, Debug, PartialEq, Eq, Structural)]
pub enum OverlayLabel {
    WaitingForServer,
    Downloading,
    LoadingAssets,
    SettingUpPhysics,
}

/// What the loading overlay does on a step.
#[derive(Clone, Copy, Debug, PartialEq, Eq, Structural)]
pub enum OverlayAction {
    /// Show the overlay with this label.
    Show(OverlayLabel),
    /// Change the label.
    Relabel(OverlayLabel),
    /// Hide and remove the overlay.
    Hide,
    /// Leave it as it is.
    Keep,
}

/// The next phase and the overlay action for an event: entering play
/// shows the overlay and waits; a map address starts a download in any
/// phase; every other event only counts in the phase that expects it
/// (a timeout while waiting and a failed download hide the overlay, a
/// finished download and a loaded scene change its label, ready colliders
/// hide it).
pub open spec fn map_load_step(phase: MapLoadPhase, event: MapLoadEvent) -> (MapLoadPhase, OverlayAction) {
    match event {
        MapLoadEvent::EnteredPlaying => (
            MapLoadPhase::WaitingForServer,
            OverlayAction::Show(OverlayLabel::WaitingForServer),
        ),
        MapLoadEvent::UrlReceived => (
            MapLoadPhase::Downloading,
            OverlayAction::Relabel(OverlayLabel::Downloading),
        ),
        MapLoadEvent::WaitTimedOut => if phase == MapLoadPhase::WaitingForServer {
            (MapLoadPhase::Idle, OverlayAction::Hide)
        } else {
            (phase, OverlayAction::Keep)
        },
        MapLoadEvent::DownloadFailed => if phase == MapLoadPhase::Downloading {
            (MapLoadPhase::Idle, OverlayAction::Hide)
        } else {
            (phase, OverlayAction::Keep)
        },
        MapLoadEvent::DownloadSucceeded => if phase == MapLoadPhase::Downloading {
            (MapLoadPhase::LoadingAssets, OverlayAction::Relabel(OverlayLabel::LoadingAssets))
        } else {
            (phase, OverlayAction::Keep)
        },
        MapLoadEvent::SceneLoaded => if phase == MapLoadPhase::LoadingAssets {
            (MapLoadPhase::SettingUpPhysics, OverlayAction::Relabel(OverlayLabel::SettingUpPhysics))
        } else {
            (phase, OverlayAction::Keep)
        },
        MapLoadEvent::CollidersReady => if phase == MapLoadPhase::SettingUpPhysics {
            (MapLoadPhase::Idle, OverlayAction::Hide)
        } else {
            (phase, OverlayAction::Keep)
        },
    }
}

/// One step of the map loader (see `map_load_step`).
pub fn map_load_next(phase: MapLoadPhase, event: MapLoadEvent) -> (r: (MapLoadPhase, OverlayAction))
    ensures
        r == map_load_step(phase, event),
{
    match event {
        MapLoadEvent::EnteredPlaying => (
            MapLoadPhase::WaitingForServer,
            OverlayAction::Show(OverlayLabel::WaitingForServer),
        ),
        MapLoadEvent::UrlReceived => (
            MapLoadPhase::Downloading,
            OverlayAction::Relabel(OverlayLabel::Downloading),
        ),
        MapLoadEvent::WaitTimedOut => if phase == MapLoadPhase::WaitingForServer {
            (MapLoadPhase::Idle, OverlayAction::Hide)
        } else {
            (phase, OverlayAction::Keep)
        },
        MapLoadEvent::DownloadFailed => if phase == MapLoadPhase::Downloading {
            (MapLoadPhase::Idle, OverlayAction::Hide)
        } else {
            (phase, OverlayAction::Keep)
        },
        MapLoadEvent::DownloadSucceeded => if phase == MapLoadPhase::Downloading {
            (MapLoadPhase::LoadingAssets, OverlayAction::Relabel(OverlayLabel::LoadingAssets))
        } else {
            (phase, OverlayAction::Keep)
        },
        MapLoadEvent::SceneLoaded => if phase == MapLoadPhase::LoadingAssets {
            (MapLoadPhase::SettingUpPhysics, OverlayAction::Relabel(OverlayLabel::SettingUpPhysics))
        } else {
            (phase, OverlayAction::Keep)
        },
        MapLoadEvent::CollidersReady => if phase == MapLoadPhase::SettingUpPhysics {
            (MapLoadPhase::Idle, OverlayAction::Hide)
        } else {
            (phase, OverlayAction::Keep)
        },
    }
}

/// The text of an overlay label.
pub open spec fn overlay_text(l: OverlayLabel) -> Seq<char> {
    match l {
        OverlayLabel::WaitingForServer => "Waiting for server map..."@,
        OverlayLabel::Downloading => "Downloading map..."@,
        OverlayLabel::LoadingAssets => "Loading map assets..."@,
        OverlayLabel::SettingUpPhysics => "Setting up physics..."@,
    }
}

/// The text of an overlay label.
pub fn overlay_label_text(l: OverlayLabel) -> (s: &'static str)
    ensures
        s@ == overlay_text(l),
{
    match l {
        OverlayLabel::WaitingForServer => "Waiting for server map...",
        OverlayLabel::Downloading => "Downloading map...",
        OverlayLabel::LoadingAssets => "Loading map assets...",
        OverlayLabel::SettingUpPhysics => "Setting up physics...",
    }
}

/// The contents of the map's `spawn_points.txt`, if the archive has one.
pub fn spawn_file(map: &ExtractedMap) -> (r: Option<&Vec<u8>>)
    requires
        map.wf(),
    ensures
        map@.contains_key("spawn_points.txt"@) ==> r is Some && r->0@ == map@["spawn_points.txt"@],
        !map@.contains_key("spawn_points.txt"@) ==> r is None,
{
    map.get("spawn_points.txt")
}

/// Where players may spawn; `P` is the position type.
pub struct SpawnPoints<P>(pub Vec<P>);

/// Asks the loader to download and load the map archive at this address.
pub struct LoadMapFromUrl(pub String);

/// The load request for a map address sent by the server.
pub fn load_request(msg: MapUrlMsg) -> (r: LoadMapFromUrl)
    ensures
        r.0 == msg.url,
{
    LoadMapFromUrl(msg.url)
}

/// The spawn points after a map's `spawn_points.txt` was read: the parsed
/// points replace the current ones unless there are none. Whether they
/// were replaced.
pub fn update_spawn_points<T>(current: &mut SpawnPoints<T>, parsed: Vec<T>) -> (replaced: bool)
    ensures
        replaced == (parsed@.len() > 0),
        replaced ==> final(current).0@ == parsed@,
        !replaced ==> final(current).0@ == old(current).0@,
{
    if parsed.len() > 0 {
        current.0 = parsed;
        true
    } else {
        false
    }
}

} // verus!
