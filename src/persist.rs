//! The record store: one record per distinct content fingerprint, a blob
//! directory for image bytes, and listing, search and retrieval.

use crate::hash::{compute_hash, fingerprint};
use crate::text::{
    decimal, decimal_of, first_chars, flat, phrase_match, phrase_matches, preview_chars, strip_quotes, trim,
    trimmed, without_quotes,
};
use vstd::prelude::*;

verus! {

/// The kind of a record; it decides which content fields are meaningful.
#[derive(Clone, Copy, Debug, PartialEq, Eq, Structural)]
pub enum ClipType {
    Text,
    Image,
    Html,
    Files,
}

/// The stored name of a kind.
pub open spec fn kind_name(t: ClipType) -> Seq<char> {
    match t {
        ClipType::Text => "text"@,
        ClipType::Html => "html"@,
        ClipType::Image => "image"@,
        ClipType::Files => "files"@,
    }
}

/// The kind a stored name stands for; an unknown name is read as text.
pub open spec fn type_of_name(s: Seq<char>) -> ClipType {
    if s == "html"@ {
        ClipType::Html
    } else if s == "image"@ {
        ClipType::Image
    } else if s == "files"@ {
        ClipType::Files
    } else {
        ClipType::Text
    }
}

impl ClipType {
    /// The stored name of this kind.
    pub fn to_string(&self) -> (r: String)
        ensures
            r@ == kind_name(*self),
    {
        match self {
            ClipType::Text => String::from_str("text"),
            ClipType::Html => String::from_str("html"),
            ClipType::Image => String::from_str("image"),
            ClipType::Files => String::from_str("files"),
        }
    }
}

impl From<String> for ClipType {
    fn from(s: String) -> (r: ClipType) {
        if s == String::from_str("html") {
            ClipType::Html
        } else if s == String::from_str("image") {
            ClipType::Image
        } else if s == String::from_str("files") {
            ClipType::Files
        } else {
            ClipType::Text
        }
    }
}

impl vstd::std_specs::convert::FromSpecImpl<String> for ClipType {
    open spec fn obeys_from_spec() -> bool {
        true
    }

    open spec fn from_spec(s: String) -> ClipType {
        type_of_name(s@)
    }
}

/// A row of a listing or a search: a short summary of one record.
#[derive(Debug)]
pub struct ClipItem {
    pub id: i64,
    pub content_type: ClipType,
    pub preview: String,
    pub created_at: i64,
    pub is_pinned: bool,
}

/// The full content of one record.
#[derive(Debug)]
pub enum ClipData {
    Text(String),
    Html { text: String, html: String },
    Image(Vec<u8>),
    Files(Vec<String>),
}

/// One stored record.
#[derive(Debug)]
pub struct ClipRecord {
    pub id: i64,
    pub content_type: ClipType,
    /// The searchable text: the text itself, the plain text of HTML, or the
    /// file paths one per line.
    pub text_content: Option<String>,
    pub html_content: Option<String>,
    /// The name of the image's blob.
    pub image_ref: Option<String>,
    /// The file paths, encoded as a JSON array of strings.
    pub file_paths: Option<String>,
    pub content_hash: String,
    /// The last time the content was seen, in seconds since the epoch.
    pub created_at: i64,
    pub is_pinned: bool,
}

/// The bytes of one image, under a name made from their fingerprint.
#[derive(Debug)]
pub struct Blob {
    pub name: String,
    pub bytes: Vec<u8>,
}

/// Why a store operation failed.
#[derive(Clone, Copy, Debug, PartialEq, Eq, Structural)]
pub enum StoreError {
    /// No record has the id, or an image record's blob is missing.
    NotFound,
    /// Every record id has been handed out.
    IdsExhausted,
    /// A record to put back clashes with the store or does not fit its kind.
    Invalid,
}

/// The JSON text of a list of strings.
pub uninterp spec fn json_encoding(paths: Seq<Seq<char>>) -> Seq<char>;

/// The list of strings that a JSON text holds, or `None` where it holds none.
pub uninterp spec fn json_decoding(s: Seq<char>) -> Option<Seq<Seq<char>>>;

#[verifier::external_type_specification]
#[verifier::external_body]
pub struct ExJsonError(serde_json::Error);

/// Relies on `serde_json::to_string` on a list of strings: its JSON text,
/// which depends on the strings alone. It cannot fail here: a `String`
/// serializes without error and the text is written into memory.
#[verifier::external_body]
fn encode_paths(paths: &Vec<String>) -> (r: String)
    ensures
        r@ == json_encoding(paths.deep_view()),
{
    match serde_json::to_string(paths) {
        Ok(text) => text,
        Err(_) => String::new(),
    }
}

/// Relies on `serde_json::from_str` into a list of strings: the list, which
/// depends on the text alone.
#[verifier::external_body]
fn decode_paths(s: &str) -> (r: Result<Vec<String>, serde_json::Error>)
    ensures
        r is Ok ==> json_decoding(s@) == Some(r->Ok_0.deep_view()),
        r is Err ==> json_decoding(s@) is None,
{
    serde_json::from_str::<Vec<String>>(s)
}

pub open spec fn opt_view(o: Option<String>) -> Option<Seq<char>> {
    match o {
        Some(s) => Some(s@),
        None => None,
    }
}

/// The fields outside a record's kind are unset.
pub open spec fn fields_fit_kind(r: ClipRecord) -> bool {
    match r.content_type {
        ClipType::Text => r.html_content is None && r.image_ref is None && r.file_paths is None,
        ClipType::Html => r.image_ref is None && r.file_paths is None,
        ClipType::Image => r.text_content is None && r.html_content is None && r.image_ref is Some
            && r.file_paths is None,
        ClipType::Files => r.html_content is None && r.image_ref is None && r.file_paths is Some,
    }
}

/// The blob name of the image with fingerprint `h`.
pub open spec fn blob_name(h: Seq<char>) -> Seq<char> {
    h + ".png"@
}

/// No two blobs share a name.
pub open spec fn names_distinct(blobs: Seq<Blob>) -> bool {
    forall|i: int, j: int|
        0 <= i < blobs.len() && 0 <= j < blobs.len() && i != j ==> blobs[i].name@ != blobs[j].name@
}

pub proof fn lemma_blob_name_injective(a: Seq<char>, b: Seq<char>)
    requires
        blob_name(a) == blob_name(b),
    ensures
        a == b,
{
    assert(a =~= blob_name(a).take(a.len() as int));
    assert(b =~= blob_name(b).take(b.len() as int));
    assert(a.len() == b.len());
}

/// The store holds a record with fingerprint `h` at index `i`.
pub open spec fn hash_at(recs: Seq<ClipRecord>, i: int, h: Seq<char>) -> bool {
    0 <= i < recs.len() && recs[i].content_hash@ == h
}

pub open spec fn has_hash(recs: Seq<ClipRecord>, h: Seq<char>) -> bool {
    exists|i: int| hash_at(recs, i, h)
}

pub open spec fn id_at(recs: Seq<ClipRecord>, i: int, id: i64) -> bool {
    0 <= i < recs.len() && recs[i].id == id
}

pub open spec fn has_blob(blobs: Seq<Blob>, name: Seq<char>) -> bool {
    exists|j: int| 0 <= j < blobs.len() && #[trigger] blobs[j].name@ == name
}

/// `r` is `old` seen again at time `now`.
pub open spec fn touched(r: ClipRecord, old: ClipRecord, now: i64) -> bool {
    r == (ClipRecord { created_at: now, ..old })
}

/// The record that a first capture of some content creates.
pub open spec fn fresh_record(
    id: i64,
    kind: ClipType,
    h: Seq<char>,
    now: i64,
    text: Option<Seq<char>>,
    html: Option<Seq<char>>,
    image: Option<Seq<char>>,
    files: Option<Seq<char>>,
    r: ClipRecord,
) -> bool {
    &&& r.id == id
    &&& r.content_type == kind
    &&& r.content_hash@ == h
    &&& r.created_at == now
    &&& !r.is_pinned
    &&& opt_view(r.text_content) == text
    &&& opt_view(r.html_content) == html
    &&& opt_view(r.image_ref) == image
    &&& opt_view(r.file_paths) == files
}

/// The record store.
pub struct Storage {
    records: Vec<ClipRecord>,
    blobs: Vec<Blob>,
    next_id: i64,
}

impl Storage {
    /// The records, oldest first.
    pub closed spec fn records(&self) -> Seq<ClipRecord> {
        self.records@
    }

    /// The blob directory.
    pub closed spec fn blobs(&self) -> Seq<Blob> {
        self.blobs@
    }

    /// The id the next new record gets.
    pub closed spec fn next_id(&self) -> i64 {
        self.next_id
    }

    /// One record per fingerprint, distinct ids below the next id, fields
    /// that fit each kind, a blob for each image record named after the
    /// record's fingerprint, and each blob named after the fingerprint of
    /// its bytes.
    pub open spec fn wf(&self) -> bool {
        let recs = self.records();
        let blobs = self.blobs();
        &&& 1 <= self.next_id()
        &&& forall|i: int, j: int|
            0 <= i < recs.len() && 0 <= j < recs.len() && i != j ==> recs[i].content_hash@
                != recs[j].content_hash@ && recs[i].id != recs[j].id
        &&& forall|i: int| 0 <= i < recs.len() ==> 1 <= #[trigger] recs[i].id < self.next_id()
        &&& forall|i: int| 0 <= i < recs.len() ==> fields_fit_kind(#[trigger] recs[i])
        &&& forall|i: int|
            0 <= i < recs.len() && (#[trigger] recs[i]).content_type == ClipType::Image
                ==> has_blob(blobs, recs[i].image_ref->Some_0@) && recs[i].image_ref->Some_0@ == blob_name(recs[i].content_hash@)
        &&& names_distinct(blobs)
        &&& forall|j: int| 0 <= j < blobs.len() ==> #[trigger] blobs[j].name@ == blob_name(fingerprint(blobs[j].bytes@))
    }

    /// An empty store.
    pub fn new() -> (s: Storage)
        ensures
            s.wf(),
            s.records().len() == 0,
            s.blobs().len() == 0,
            s.next_id() == 1,
    {
        Storage { records: Vec::new(), blobs: Vec::new(), next_id: 1 }
    }

    /// The index of the record with fingerprint `hash`, if any.
    fn find_index_by_hash(&self, hash: &String) -> (r: Option<usize>)
        ensures
            match r {
                Some(i) => hash_at(self.records(), i as int, hash@),
                None => !has_hash(self.records(), hash@),
            },
    {
        let mut i: usize = 0;
        while i < self.records.len()
            invariant
                i <= self.records@.len(),
                forall|j: int| 0 <= j < i ==> !hash_at(self.records@, j, hash@),
            decreases self.records@.len() - i,
        {
            if self.records[i].content_hash == *hash {
                return Some(i);
            }
            i = i + 1;
        }
        None
    }

    /// Stores a text capture seen at time `now`: the text without its
    /// leading and trailing white space. Empty text stores nothing and gives 0.
    pub fn add_text(&mut self, text: String, now: i64) -> (r: Result<i64, StoreError>)
        requires
            old(self).wf(),
        ensures
            final(self).wf(),
            final(self).blobs() == old(self).blobs(),
            trimmed(text@).len() == 0 ==> r == Ok::<i64, StoreError>(0) && *final(self) == *old(self),
            trimmed(text@).len() > 0 ==> upserted(old(self).records(), final(self).records(), old(self).next_id(), final(self).next_id(), ClipType::Text, text_hash(trimmed(text@)), now, Some(trimmed(text@)), None, None, None, r),
    {
        let text = trim(text.as_str());
        if text.unicode_len() == 0 {
            return Ok(0);
        }
        let hash = compute_hash(text.as_str().as_bytes());
        self.upsert_record(ClipType::Text, hash, now, Some(text), None, None, None)
    }

    /// Stores an HTML capture seen at time `now`, keyed by the markup alone;
    /// `text_preview` is its searchable plain text.
    pub fn add_html(&mut self, text_preview: String, html_content: String, now: i64) -> (r: Result<i64, StoreError>)
        requires
            old(self).wf(),
        ensures
            final(self).wf(),
            final(self).blobs() == old(self).blobs(),
            upserted(old(self).records(), final(self).records(), old(self).next_id(), final(self).next_id(), ClipType::Html, text_hash(html_content@), now, Some(text_preview@), Some(html_content@), None, None, r),
    {
        let hash = compute_hash(html_content.as_str().as_bytes());
        self.upsert_record(ClipType::Html, hash, now, Some(text_preview), Some(html_content), None, None)
    }

    /// Stores a file-list capture seen at time `now`. The record keeps the
    /// list as JSON, keyed by that JSON, and the paths one per line as its
    /// searchable text. An empty list stores nothing and gives 0.
    pub fn add_files(&mut self, paths: Vec<String>, now: i64) -> (r: Result<i64, StoreError>)
        requires
            old(self).wf(),
        ensures
            final(self).wf(),
            final(self).blobs() == old(self).blobs(),
            paths@.len() == 0 ==> r == Ok::<i64, StoreError>(0) && *final(self) == *old(self),
            paths@.len() > 0 ==> upserted(old(self).records(), final(self).records(), old(self).next_id(), final(self).next_id(), ClipType::Files, text_hash(json_encoding(paths.deep_view())), now, Some(joined(paths.deep_view())), None, None, Some(json_encoding(paths.deep_view())), r),
    {
        if paths.len() == 0 {
            return Ok(0);
        }
        let json = encode_paths(&paths);
        let search_text = join_lines(&paths);
        let hash = compute_hash(json.as_str().as_bytes());
        self.upsert_record(ClipType::Files, hash, now, Some(search_text), None, None, Some(json))
    }

    /// Stores an image capture seen at time `now`, keyed by its bytes. A new
    /// image's bytes go to the blob named after its fingerprint, unless that
    /// blob exists already; a known image only has its time set to `now`.
    pub fn add_image(&mut self, image_bytes: Vec<u8>, now: i64) -> (r: Result<i64, StoreError>)
        requires
            old(self).wf(),
        ensures
            final(self).wf(),
            upserted(old(self).records(), final(self).records(), old(self).next_id(), final(self).next_id(), ClipType::Image, fingerprint(image_bytes@), now, None, None, Some(blob_name(fingerprint(image_bytes@))), None, r),
            image_stored(old(self).records(), old(self).blobs(), final(self).blobs(), old(self).next_id(), fingerprint(image_bytes@), image_bytes@),
    {
        let hash = compute_hash(image_bytes.as_slice());
        match self.find_index_by_hash(&hash) {
            Some(i) => {
                let id = self.touch_record(i, now);
                proof {
                    assert(hash_at(old(self).records(), i as int, hash@));
                }
                Ok(id)
            },
            None => {
                if self.next_id == i64::MAX {
                    return Err(StoreError::IdsExhausted);
                }
                let name = hash.clone().concat(".png");
                proof {
                    reveal_strlit(".png");
                }
                if self.find_blob(&name).is_none() {
                    let ghost olds = self.blobs@;
                    self.blobs.push(Blob { name: name.clone(), bytes: image_bytes });
                    proof {
                        let b = self.blobs@;
                        assert(b.take(olds.len() as int) =~= olds);
                        assert forall|k: int| 0 <= k < olds.len() implies b[k] == olds[k] by {}
                        assert forall|k: int| 0 <= k < olds.len() implies b[k].name@ != name@ by {
                            assert(!(0 <= k < olds.len() && olds[k].name@ == name@));
                        }
                        assert(has_blob(b, name@)) by {
                            assert(b[olds.len() as int].name@ == name@);
                        }
                        let recs = self.records@;
                        assert forall|k: int| 0 <= k < recs.len() && recs[k].content_type == ClipType::Image
                            implies has_blob(b, recs[k].image_ref->Some_0@) by {
                            assert(has_blob(olds, recs[k].image_ref->Some_0@));
                            let j = choose|j: int| 0 <= j < olds.len() && #[trigger] olds[j].name@ == recs[k].image_ref->Some_0@;
                            assert(b[j] == olds[j]);
                        }
                    }
                }
                self.upsert_record(ClipType::Image, hash, now, None, None, Some(name), None)
            },
        }
    }

    /// The index of the blob named `name`, if any.
    fn find_blob(&self, name: &String) -> (r: Option<usize>)
        ensures
            match r {
                Some(j) => j < self.blobs@.len() && self.blobs@[j as int].name@ == name@,
                None => !has_blob(self.blobs@, name@),
            },
    {
        let mut j: usize = 0;
        while j < self.blobs.len()
            invariant
                j <= self.blobs@.len(),
                forall|k: int| 0 <= k < j ==> self.blobs@[k].name@ != name@,
            decreases self.blobs@.len() - j,
        {
            if self.blobs[j].name == *name {
                return Some(j);
            }
            j = j + 1;
        }
        None
    }

    /// Sets the time of the record at index `i` to `now`; returns its id.
    fn touch_record(&mut self, i: usize, now: i64) -> (id: i64)
        requires
            old(self).wf(),
            i < old(self).records().len(),
        ensures
            final(self).wf(),
            final(self).blobs() == old(self).blobs(),
            final(self).next_id() == old(self).next_id(),
            id == old(self).records()[i as int].id,
            final(self).records() == old(self).records().update(i as int, ClipRecord { created_at: now, ..old(self).records()[i as int] }),
    {
        self.records[i].created_at = now;
        proof {
            let recs = old(self).records@;
            let recs2 = self.records@;
            assert(recs2 =~= recs.update(i as int, ClipRecord { created_at: now, ..recs[i as int] }));
            assert forall|k: int| 0 <= k < recs.len() implies recs2[k].content_hash == recs[k].content_hash
                && recs2[k].id == recs[k].id && recs2[k].content_type == recs[k].content_type
                && recs2[k].image_ref == recs[k].image_ref && fields_fit_kind(recs2[k]) by {
                assert(fields_fit_kind(recs[k]));
            }
            assert forall|k: int| 0 <= k < recs2.len() && recs2[k].content_type == ClipType::Image
                implies has_blob(self.blobs@, recs2[k].image_ref->Some_0@) by {
                assert(recs[k].content_type == ClipType::Image);
            }
        }
        self.records[i].id
    }

    /// The index of the record with id `id`, if any.
    fn find_index_by_id(&self, id: i64) -> (r: Option<usize>)
        ensures
            match r {
                Some(i) => id_at(self.records(), i as int, id),
                None => forall|i: int| !id_at(self.records(), i, id),
            },
    {
        let mut i: usize = 0;
        while i < self.records.len()
            invariant
                i <= self.records@.len(),
                forall|j: int| 0 <= j < i ==> !id_at(self.records@, j, id),
            decreases self.records@.len() - i,
        {
            if self.records[i].id == id {
                return Some(i);
            }
            i = i + 1;
        }
        None
    }

    /// The record with id `id`, if any.
    pub fn record(&self, id: i64) -> (r: Option<&ClipRecord>)
        requires
            self.wf(),
        ensures
            (forall|i: int| !id_at(self.records(), i, id)) ==> r is None,
            forall|i: int| id_at(self.records(), i, id) ==> r == Some(&self.records()[i]),
    {
        match self.find_index_by_id(id) {
            Some(i) => {
                proof {
                    assert forall|k: int| id_at(self.records(), k, id) implies k == i by {}
                }
                Some(&self.records[i])
            },
            None => None,
        }
    }

    /// Puts back a record read from an earlier copy of the store, with the
    /// bytes of its image where it is an image whose blob is not here yet.
    pub fn restore(&mut self, rec: ClipRecord, image: Option<Vec<u8>>) -> (r: Result<(), StoreError>)
        requires
            old(self).wf(),
        ensures
            final(self).wf(),
            !restorable(old(self).records(), old(self).blobs(), rec, opt_bytes(image)) ==> r == Err::<(), StoreError>(StoreError::Invalid)
                && *final(self) == *old(self),
            restorable(old(self).records(), old(self).blobs(), rec, opt_bytes(image)) ==> {
                &&& r is Ok
                &&& final(self).records() == old(self).records().push(rec)
                &&& final(self).next_id() == if rec.id < old(self).next_id() { old(self).next_id() } else { (rec.id + 1) as i64 }
                &&& if rec.content_type == ClipType::Image && !has_blob(old(self).blobs(), rec.image_ref->Some_0@) {
                    final(self).blobs().len() == old(self).blobs().len() + 1
                        && final(self).blobs().take(old(self).blobs().len() as int) == old(self).blobs()
                        && final(self).blobs().last().name@ == rec.image_ref->Some_0@
                        && final(self).blobs().last().bytes@ == image->Some_0@
                } else {
                    final(self).blobs() == old(self).blobs()
                }
            },
    {
        if rec.id < 1 || rec.id == i64::MAX || !fits_kind(&rec) {
            return Err(StoreError::Invalid);
        }
        if self.find_index_by_id(rec.id).is_some() || self.find_index_by_hash(&rec.content_hash).is_some() {
            return Err(StoreError::Invalid);
        }
        if let (ClipType::Image, Some(name)) = (rec.content_type, &rec.image_ref) {
            let own = rec.content_hash.clone().concat(".png");
            proof {
                reveal_strlit(".png");
            }
            if own != *name {
                return Err(StoreError::Invalid);
            }
        }
        let ghost old_blobs = self.blobs@;
        if let (ClipType::Image, Some(name)) = (rec.content_type, &rec.image_ref) {
            if self.find_blob(name).is_none() {
                match image {
                    Some(bytes) => {
                        let named = compute_hash(bytes.as_slice()).concat(".png");
                        proof {
                            reveal_strlit(".png");
                        }
                        if named != *name {
                            return Err(StoreError::Invalid);
                        }
                        self.blobs.push(Blob { name: name.clone(), bytes });
                        proof {
                            let b = self.blobs@;
                            assert(b.take(old_blobs.len() as int) =~= old_blobs);
                            assert forall|k: int| 0 <= k < old_blobs.len() implies b[k] == old_blobs[k] by {}
                            assert forall|k: int| 0 <= k < old_blobs.len() implies b[k].name@ != name@ by {
                                assert(!(0 <= k < old_blobs.len() && old_blobs[k].name@ == name@));
                            }
                            assert(has_blob(b, name@)) by {
                                assert(b[old_blobs.len() as int].name@ == name@);
                            }
                            let recs = self.records@;
                            assert forall|k: int| 0 <= k < recs.len() && recs[k].content_type == ClipType::Image
                                implies has_blob(b, recs[k].image_ref->Some_0@) by {
                                assert(has_blob(old_blobs, recs[k].image_ref->Some_0@));
                                let j = choose|j: int| 0 <= j < old_blobs.len() && #[trigger] old_blobs[j].name@ == recs[k].image_ref->Some_0@;
                                assert(b[j] == old_blobs[j]);
                            }
                        }
                    },
                    None => {
                        return Err(StoreError::Invalid);
                    },
                }
            }
        }
        if rec.id >= self.next_id {
            self.next_id = rec.id + 1;
        }
        let ghost olds = self.records@;
        self.records.push(rec);
        proof {
            let recs = self.records@;
            assert forall|k: int| 0 <= k < olds.len() implies recs[k] == olds[k] by {}
            assert forall|k: int| 0 <= k < olds.len() implies recs[k].content_hash@ != rec.content_hash@ && recs[k].id != rec.id by {
                if recs[k].content_hash@ == rec.content_hash@ {
                    assert(hash_at(olds, k, rec.content_hash@));
                }
                if recs[k].id == rec.id {
                    assert(id_at(olds, k, rec.id));
                }
            }
            assert forall|k: int| 0 <= k < recs.len() && recs[k].content_type == ClipType::Image
                implies has_blob(self.blobs@, recs[k].image_ref->Some_0@) by {
                if k < olds.len() {
                    assert(recs[k] == olds[k]);
                }
            }
        }
        Ok(())
    }

    /// Sets whether the record with id `id` is pinned; nothing else changes.
    pub fn set_pinned(&mut self, id: i64, pinned: bool) -> (r: Result<(), StoreError>)
        requires
            old(self).wf(),
        ensures
            final(self).wf(),
            final(self).blobs() == old(self).blobs(),
            final(self).next_id() == old(self).next_id(),
            (forall|i: int| !id_at(old(self).records(), i, id)) ==> r == Err::<(), StoreError>(StoreError::NotFound)
                && final(self).records() == old(self).records(),
            forall|i: int| id_at(old(self).records(), i, id) ==> r is Ok && final(self).records() == old(self).records().update(
                i,
                ClipRecord { is_pinned: pinned, ..old(self).records()[i] },
            ),
    {
        let i = match self.find_index_by_id(id) {
            Some(i) => i,
            None => {
                return Err(StoreError::NotFound);
            },
        };
        self.records[i].is_pinned = pinned;
        proof {
            let recs = old(self).records@;
            let recs2 = self.records@;
            assert(recs2 =~= recs.update(i as int, ClipRecord { is_pinned: pinned, ..recs[i as int] }));
            assert forall|k: int| id_at(recs, k, id) implies k == i by {}
            assert forall|k: int| 0 <= k < recs.len() implies recs2[k].content_hash == recs[k].content_hash
                && recs2[k].id == recs[k].id && recs2[k].content_type == recs[k].content_type
                && recs2[k].image_ref == recs[k].image_ref && fields_fit_kind(recs2[k]) by {
                assert(fields_fit_kind(recs[k]));
            }
            assert forall|k: int| 0 <= k < recs2.len() && recs2[k].content_type == ClipType::Image
                implies has_blob(self.blobs@, recs2[k].image_ref->Some_0@) by {
                assert(recs[k].content_type == ClipType::Image);
            }
        }
        Ok(())
    }

    /// The full content of the record with id `id`.
    pub fn get_content(&self, id: i64) -> (r: Result<ClipData, StoreError>)
        requires
            self.wf(),
        ensures
            (forall|i: int| !id_at(self.records(), i, id)) ==> r == Err::<ClipData, StoreError>(StoreError::NotFound),
            forall|i: int| id_at(self.records(), i, id) ==> content_of(self.records()[i], self.blobs(), r),
            forall|i: int| #[trigger] id_at(self.records(), i, id) && self.records()[i].content_type == ClipType::Image
                ==> r is Ok && r->Ok_0 is Image && fingerprint(r->Ok_0->Image_0@) == self.records()[i].content_hash@,
    {
        let i = match self.find_index_by_id(id) {
            Some(i) => i,
            None => {
                return Err(StoreError::NotFound);
            },
        };
        let rec = &self.records[i];
        proof {
            assert forall|k: int| id_at(self.records(), k, id) implies k == i by {}
        }
        match rec.content_type {
            ClipType::Text => Ok(ClipData::Text(text_or_empty(&rec.text_content))),
            ClipType::Html => Ok(
                ClipData::Html {
                    text: text_or_empty(&rec.text_content),
                    html: text_or_empty(&rec.html_content),
                },
            ),
            ClipType::Image => {
                match &rec.image_ref {
                    Some(name) => match self.find_blob(name) {
                        Some(j) => {
                            let bytes = self.blobs[j].bytes.clone();
                            proof {
                                assert(bytes@ =~= self.blobs@[j as int].bytes@);
                                lemma_blob_name_injective(fingerprint(bytes@), rec.content_hash@);
                            }
                            Ok(ClipData::Image(bytes))
                        },
                        None => Err(StoreError::NotFound),
                    },
                    None => Err(StoreError::NotFound),
                }
            },
            ClipType::Files => {
                let paths = match &rec.file_paths {
                    Some(json) => match decode_paths(json.as_str()) {
                        Ok(paths) => paths,
                        Err(_) => Vec::new(),
                    },
                    None => Vec::new(),
                };
                proof {
                    if paths@.len() == 0 {
                        assert(paths.deep_view() =~= Seq::<Seq<char>>::empty());
                    }
                }
                Ok(ClipData::Files(paths))
            },
        }
    }

    /// The indices of the selected records, ranked by `before`.
    fn rank_indices(&self, pins_first: bool, filter: bool, query: &str) -> (order: Vec<usize>)
        requires
            self.wf(),
        ensures
            is_ranking(self.records(), order@, pins_first, filter, query@),
    {
        let n = self.records.len();
        let mut order: Vec<usize> = Vec::new();
        let mut i: usize = 0;
        while i < n
            invariant
                self.wf(),
                n == self.records@.len(),
                i <= n,
                forall|k: int| 0 <= k < order@.len() ==> order@[k] < i,
                is_ranking(self.records@.take(i as int), order@, pins_first, filter, query@),
            decreases n - i,
        {
            let ghost recs = self.records@;
            let rec = &self.records[i];
            let pick = if filter {
                match &rec.text_content {
                    Some(t) => phrase_matches(query, t.as_str()),
                    None => false,
                }
            } else {
                true
            };
            proof {
                assert(recs.take(i + 1).drop_last() =~= recs.take(i as int));
                assert(recs.take(i + 1)[i as int] == recs[i as int]);
                assert forall|k: int| 0 <= k < i implies recs.take(i + 1)[k] == recs.take(i as int)[k] by {}
            }
            if pick {
                let mut p: usize = 0;
                while p < order.len() && before_exec(&self.records[order[p]], rec, pins_first)
                    invariant
                        self.wf(),
                        n == self.records@.len(),
                        i < n,
                        recs == self.records@,
                        *rec == recs[i as int],
                        p <= order@.len(),
                        forall|k: int| 0 <= k < order@.len() ==> order@[k] < i,
                        forall|k: int| 0 <= k < p ==> before(recs[order@[k] as int], recs[i as int], pins_first),
                    decreases order@.len() - p,
                {
                    p = p + 1;
                }
                let ghost old_order = order@;
                proof {
                    if p < old_order.len() {
                        lemma_before_total(recs[old_order[p as int] as int], recs[i as int], pins_first);
                    }
                    assert forall|b: int| p <= b < old_order.len() implies before(recs[i as int], recs[old_order[b] as int], pins_first) by {
                        if b > p {
                            assert(before(recs[old_order[p as int] as int], recs[old_order[b] as int], pins_first));
                            lemma_before_trans(recs[i as int], recs[old_order[p as int] as int], recs[old_order[b] as int], pins_first);
                        }
                    }
                }
                order.insert(p, i);
                proof {
                    let o = order@;
                    assert(o =~= old_order.insert(p as int, i));
                    let rs = recs.take(i + 1);
                    assert forall|a: int, b: int| 0 <= a < b < o.len() implies before(rs[o[a] as int], rs[o[b] as int], pins_first) by {
                        if a < p && b < p {
                        } else if a < p && b == p {
                        } else if a < p {
                            assert(before(recs[old_order[a] as int], recs[i as int], pins_first));
                            assert(before(recs[i as int], recs[old_order[b - 1] as int], pins_first));
                            lemma_before_trans(recs[old_order[a] as int], recs[i as int], recs[old_order[b - 1] as int], pins_first);
                        } else if a == p {
                        } else {
                        }
                    }
                    assert forall|j: int| 0 <= j < rs.len() && selected(#[trigger] rs[j], filter, query@) implies exists|k: int| 0 <= k < o.len() && o[k] == j by {
                        if j == i {
                            assert(o[p as int] == i);
                        } else {
                            assert(selected(recs.take(i as int)[j], filter, query@));
                            let k = choose|k: int| 0 <= k < old_order.len() && old_order[k] == j;
                            if k < p {
                                assert(o[k] == j);
                            } else {
                                assert(o[k + 1] == j);
                            }
                        }
                    }
                }
            } else {
                proof {
                    let rs = recs.take(i + 1);
                    assert forall|j: int| 0 <= j < rs.len() && selected(#[trigger] rs[j], filter, query@) implies exists|k: int| 0 <= k < order@.len() && order@[k] == j by {
                        assert(j != i);
                        assert(selected(recs.take(i as int)[j], filter, query@));
                    }
                }
            }
            i = i + 1;
        }
        proof {
            assert(self.records@.take(n as int) =~= self.records@);
        }
        order
    }

    /// Up to `limit` records, after skipping `offset`, pinned records first,
    /// then the most recently seen first (the larger id first on equal times).
    pub fn get_recent(&self, limit: usize, offset: usize) -> (r: Vec<ClipItem>)
        requires
            self.wf(),
        ensures
            exists|order: Seq<usize>|
                is_ranking(self.records(), order, true, false, Seq::empty()) && #[trigger] window(
                    self.records(),
                    order,
                    offset as int,
                    limit as int,
                    r@,
                    true,
                ),
            forall|a: int, b: int| 0 <= a < b < r@.len() ==> r@[a].is_pinned || !r@[b].is_pinned,
    {
        let order = self.rank_indices(true, false, "");
        proof {
            lemma_pinned_first(self.records(), order@, false, ""@);
        }
        let len = order.len();
        let mut r: Vec<ClipItem> = Vec::new();
        if offset >= len {
            proof {
                assert(window(self.records(), order@, offset as int, limit as int, r@, true));
            }
            return r;
        }
        let end: usize = if limit < len - offset { offset + limit } else { len };
        let mut k: usize = offset;
        while k < end
            invariant
                self.wf(),
                is_ranking(self.records(), order@, true, false, ""@),
                len == order@.len(),
                offset <= k <= end <= len,
                r@.len() == k - offset,
                forall|m: int| 0 <= m < r@.len() ==> item_of(#[trigger] r@[m], self.records()[order@[offset + m] as int], recent_preview(self.records()[order@[offset + m] as int])),
            decreases end - k,
        {
            let rec = &self.records[order[k]];
            r.push(ClipItem {
                id: rec.id,
                content_type: rec.content_type,
                preview: recent_preview_exec(rec),
                created_at: rec.created_at,
                is_pinned: rec.is_pinned,
            });
            k = k + 1;
        }
        proof {
            assert(window(self.records(), order@, offset as int, limit as int, r@, true));
        }
        r
    }

    /// The records whose searchable text holds the phrase `query`, read
    /// without its double quotes (a phrase without words matches nothing),
    /// the most recently seen first,
    /// at most 50 of them.
    pub fn search(&self, query: &str) -> (r: Vec<ClipItem>)
        requires
            self.wf(),
        ensures
            exists|order: Seq<usize>|
                is_ranking(self.records(), order, false, true, without_quotes(query@)) && #[trigger] window(
                    self.records(),
                    order,
                    0,
                    50,
                    r@,
                    false,
                ),
    {
        let phrase = strip_quotes(query);
        let order = self.rank_indices(false, true, phrase.as_str());
        let len = order.len();
        let end: usize = if len < 50 { len } else { 50 };
        let mut r: Vec<ClipItem> = Vec::new();
        let mut k: usize = 0;
        while k < end
            invariant
                self.wf(),
                is_ranking(self.records(), order@, false, true, phrase@),
                len == order@.len(),
                k <= end <= len,
                end == if len < 50 { len } else { 50 },
                r@.len() == k,
                forall|m: int| 0 <= m < r@.len() ==> item_of(#[trigger] r@[m], self.records()[order@[m] as int], search_preview(self.records()[order@[m] as int])),
            decreases end - k,
        {
            let rec = &self.records[order[k]];
            r.push(ClipItem {
                id: rec.id,
                content_type: rec.content_type,
                preview: search_preview_exec(rec),
                created_at: rec.created_at,
                is_pinned: rec.is_pinned,
            });
            k = k + 1;
        }
        proof {
            assert(window(self.records(), order@, 0, 50, r@, false));
        }
        r
    }

    /// Inserts a record for fingerprint `hash`, or, where one exists, sets
    /// only its time to `now`; returns the record's id.
    fn upsert_record(
        &mut self,
        kind: ClipType,
        hash: String,
        now: i64,
        text: Option<String>,
        html: Option<String>,
        image: Option<String>,
        files: Option<String>,
    ) -> (r: Result<i64, StoreError>)
        requires
            old(self).wf(),
            fields_fit_kind(
                (ClipRecord {
                    id: 0,
                    content_type: kind,
                    text_content: text,
                    html_content: html,
                    image_ref: image,
                    file_paths: files,
                    content_hash: hash,
                    created_at: now,
                    is_pinned: false,
                }),
            ),
            kind == ClipType::Image ==> has_blob(old(self).blobs(), image->Some_0@) && image->Some_0@ == blob_name(hash@),
        ensures
            final(self).wf(),
            final(self).blobs() == old(self).blobs(),
            upserted(old(self).records(), final(self).records(), old(self).next_id(), final(self).next_id(), kind, hash@, now, opt_view(text), opt_view(html), opt_view(image), opt_view(files), r),
    {
        match self.find_index_by_hash(&hash) {
            Some(i) => {
                let id = self.touch_record(i, now);
                proof {
                    assert(hash_at(old(self).records(), i as int, hash@));
                }
                Ok(id)
            },
            None => {
                if self.next_id == i64::MAX {
                    return Err(StoreError::IdsExhausted);
                }
                let id = self.next_id;
                self.records.push(
                    ClipRecord {
                        id,
                        content_type: kind,
                        text_content: text,
                        html_content: html,
                        image_ref: image,
                        file_paths: files,
                        content_hash: hash,
                        created_at: now,
                        is_pinned: false,
                    },
                );
                self.next_id = id + 1;
                proof {
                    let recs = self.records@;
                    let olds = old(self).records@;
                    assert(recs.take(olds.len() as int) =~= olds);
                    assert forall|k: int| 0 <= k < olds.len() implies recs[k] == olds[k] by {}
                    assert forall|k: int| 0 <= k < recs.len() && recs[k].content_type == ClipType::Image
                        implies has_blob(self.blobs@, recs[k].image_ref->Some_0@) by {
                        if k < olds.len() {
                            assert(recs[k] == olds[k]);
                        }
                    }
                    assert(!has_hash(olds, hash@));
                    assert forall|k: int| 0 <= k < olds.len() implies recs[k].content_hash@ != hash@ by {
                        if recs[k].content_hash@ == hash@ {
                            assert(hash_at(olds, k, hash@));
                        }
                    }
                }
                Ok(id)
            },
        }
    }
}

/// The fingerprint of a text: that of its UTF-8 bytes.
pub open spec fn text_hash(s: Seq<char>) -> Seq<char> {
    fingerprint(vstd::utf8::encode_utf8(s))
}

/// The paths, one per line.
pub open spec fn joined(paths: Seq<Seq<char>>) -> Seq<char>
    decreases paths.len(),
{
    if paths.len() == 0 {
        Seq::empty()
    } else if paths.len() == 1 {
        paths[0]
    } else {
        joined(paths.drop_last()) + "\n"@ + paths.last()
    }
}

/// The paths, one per line.
pub(crate) fn join_lines(paths: &Vec<String>) -> (r: String)
    ensures
        r@ == joined(paths.deep_view()),
{
    let mut r = String::new();
    let mut i: usize = 0;
    let ghost dv = paths.deep_view();
    while i < paths.len()
        invariant
            i <= paths@.len(),
            dv == paths.deep_view(),
            dv.len() == paths@.len(),
            r@ == joined(dv.take(i as int)),
        decreases paths@.len() - i,
    {
        proof {
            reveal_strlit("\n");
            assert(dv.take(i + 1).drop_last() =~= dv.take(i as int));
            assert(dv[i as int] == paths@[i as int]@);
        }
        if i > 0 {
            r.append("\n");
        }
        r.append(paths[i].as_str());
        proof {
            if i == 0 {
                assert(r@ =~= joined(dv.take(1)));
            }
        }
        i = i + 1;
    }
    proof {
        assert(dv.take(paths@.len() as int) =~= dv);
    }
    r
}

/// What an image capture does to the blob directory: a new image whose blob
/// is missing adds it, with the image's bytes; otherwise nothing changes.
pub open spec fn image_stored(
    recs: Seq<ClipRecord>,
    blobs: Seq<Blob>,
    blobs2: Seq<Blob>,
    next: i64,
    h: Seq<char>,
    bytes: Seq<u8>,
) -> bool {
    if !has_hash(recs, h) && next != i64::MAX && !has_blob(blobs, blob_name(h)) {
        &&& blobs2.len() == blobs.len() + 1
        &&& blobs2.take(blobs.len() as int) == blobs
        &&& blobs2.last().name@ == blob_name(h)
        &&& blobs2.last().bytes@ == bytes
    } else {
        blobs2 == blobs
    }
}

/// The text of an optional string; nothing stands for the empty text.
pub open spec fn text_of(o: Option<String>) -> Seq<char> {
    match o {
        Some(s) => s@,
        None => Seq::empty(),
    }
}

fn text_or_empty(o: &Option<String>) -> (r: String)
    ensures
        r@ == text_of(*o),
{
    match o {
        Some(s) => s.clone(),
        None => String::new(),
    }
}

/// The file list that a record's JSON holds; the empty list where it holds
/// none.
pub open spec fn stored_paths(o: Option<String>) -> Seq<Seq<char>> {
    match o {
        Some(js) => match json_decoding(js@) {
            Some(p) => p,
            None => Seq::empty(),
        },
        None => Seq::empty(),
    }
}

/// `r` is the full content of `rec`: its text, its HTML, the bytes of its
/// blob (not found where the blob is missing), or its file list.
pub open spec fn content_of(rec: ClipRecord, blobs: Seq<Blob>, r: Result<ClipData, StoreError>) -> bool {
    match rec.content_type {
        ClipType::Text => match r {
            Ok(ClipData::Text(t)) => t@ == text_of(rec.text_content),
            _ => false,
        },
        ClipType::Html => match r {
            Ok(ClipData::Html { text, html }) => text@ == text_of(rec.text_content) && html@ == text_of(
                rec.html_content,
            ),
            _ => false,
        },
        ClipType::Image => if rec.image_ref is Some && has_blob(blobs, rec.image_ref->Some_0@) {
            match r {
                Ok(ClipData::Image(b)) => exists|j: int|
                    0 <= j < blobs.len() && #[trigger] blobs[j].name@ == rec.image_ref->Some_0@
                        && b@ == blobs[j].bytes@,
                _ => false,
            }
        } else {
            r == Err::<ClipData, StoreError>(StoreError::NotFound)
        },
        ClipType::Files => match r {
            Ok(ClipData::Files(p)) => p.deep_view() == stored_paths(rec.file_paths),
            _ => false,
        },
    }
}

/// `a` ranks above `b`: with `pins_first`, a pinned record above an
/// unpinned one; then the later time first, and the larger id on equal times.
pub open spec fn before(a: ClipRecord, b: ClipRecord, pins_first: bool) -> bool {
    if pins_first && a.is_pinned != b.is_pinned {
        a.is_pinned
    } else {
        a.created_at > b.created_at || (a.created_at == b.created_at && a.id > b.id)
    }
}

pub proof fn lemma_before_trans(a: ClipRecord, b: ClipRecord, c: ClipRecord, pins_first: bool)
    requires
        before(a, b, pins_first),
        before(b, c, pins_first),
    ensures
        before(a, c, pins_first),
{
}

pub proof fn lemma_before_total(a: ClipRecord, b: ClipRecord, pins_first: bool)
    requires
        a.id != b.id,
    ensures
        before(a, b, pins_first) || before(b, a, pins_first),
{
}

fn before_exec(a: &ClipRecord, b: &ClipRecord, pins_first: bool) -> (r: bool)
    ensures
        r == before(*a, *b, pins_first),
{
    if pins_first && a.is_pinned != b.is_pinned {
        a.is_pinned
    } else {
        a.created_at > b.created_at || (a.created_at == b.created_at && a.id > b.id)
    }
}

/// A record is selected: any record unless `filter` holds, else one whose
/// searchable text holds the words of the phrase `query` in a row.
pub open spec fn selected(rec: ClipRecord, filter: bool, query: Seq<char>) -> bool {
    !filter || (rec.text_content is Some && phrase_match(query, rec.text_content->Some_0@))
}

/// `order` lists the indices of exactly the selected records, each ranked
/// above those after it.
pub open spec fn is_ranking(recs: Seq<ClipRecord>, order: Seq<usize>, pins_first: bool, filter: bool, query: Seq<char>) -> bool {
    &&& forall|k: int| 0 <= k < order.len() ==> order[k] < recs.len() && selected(recs[#[trigger] order[k] as int], filter, query)
    &&& forall|j: int| 0 <= j < recs.len() && selected(#[trigger] recs[j], filter, query) ==> exists|k: int| 0 <= k < order.len() && order[k] == j
    &&& forall|a: int, b: int| 0 <= a < b < order.len() ==> before(recs[order[a] as int], recs[order[b] as int], pins_first)
}

/// The summary row of `rec` with preview text `preview`.
pub open spec fn item_of(item: ClipItem, rec: ClipRecord, preview: Seq<char>) -> bool {
    &&& item.id == rec.id
    &&& item.content_type == rec.content_type
    &&& item.preview@ == preview
    &&& item.created_at == rec.created_at
    &&& item.is_pinned == rec.is_pinned
}

/// `items` are the rows of the ranked records from position `offset` on, at
/// most `limit` of them, with listing previews where `recent` holds and
/// search previews otherwise.
pub open spec fn window(recs: Seq<ClipRecord>, order: Seq<usize>, offset: int, limit: int, items: Seq<ClipItem>, recent: bool) -> bool {
    let count = if offset >= order.len() { 0 } else if limit < order.len() - offset { limit } else { order.len() - offset };
    &&& items.len() == count
    &&& forall|m: int| 0 <= m < count ==> item_of(#[trigger] items[m], recs[order[offset + m] as int],
        if recent { recent_preview(recs[order[offset + m] as int]) } else { search_preview(recs[order[offset + m] as int]) })
}

/// The listing preview of a record: its first 100 characters on one line, a
/// marker for an image, and for a file list the number of files and the first.
pub open spec fn recent_preview(rec: ClipRecord) -> Seq<char> {
    match rec.content_type {
        ClipType::Text | ClipType::Html => flat(first_chars(text_of(rec.text_content), 100)),
        ClipType::Image => "[图片]"@,
        ClipType::Files => match rec.file_paths {
            Some(js) => match json_decoding(js@) {
                Some(p) => "[文件] "@ + decimal_of(p.len()) + " 个项目: "@ + (if p.len() > 0 { p[0] } else { Seq::empty() }),
                None => "[文件列表]"@,
            },
            None => "[文件列表]"@,
        },
    }
}

/// The search preview of a record: its first 50 characters, or a marker for
/// an image or a file list.
pub open spec fn search_preview(rec: ClipRecord) -> Seq<char> {
    match rec.content_type {
        ClipType::Text | ClipType::Html => first_chars(text_of(rec.text_content), 50),
        ClipType::Image => "[图片]"@,
        ClipType::Files => "[文件]"@,
    }
}

fn recent_preview_exec(rec: &ClipRecord) -> (r: String)
    ensures
        r@ == recent_preview(*rec),
{
    match rec.content_type {
        ClipType::Text | ClipType::Html => {
            let t = text_or_empty(&rec.text_content);
            preview_chars(t.as_str(), 100, true)
        },
        ClipType::Image => String::from_str("[图片]"),
        ClipType::Files => {
            let fallback = String::from_str("[文件列表]");
            match &rec.file_paths {
                Some(js) => match decode_paths(js.as_str()) {
                    Ok(p) => {
                        let count = decimal(p.len());
                        let r = String::from_str("[文件] ").concat(count.as_str()).concat(" 个项目: ");
                        proof {
                            reveal_strlit("[文件] ");
                            reveal_strlit(" 个项目: ");
                            assert(p.deep_view().len() == p@.len());
                        }
                        if p.len() > 0 {
                            proof {
                                assert(p.deep_view()[0] == p@[0]@);
                            }
                            r.concat(p[0].as_str())
                        } else {
                            proof {
                                assert(r@ + Seq::<char>::empty() =~= r@);
                            }
                            r
                        }
                    },
                    Err(_) => fallback,
                },
                None => fallback,
            }
        },
    }
}

fn search_preview_exec(rec: &ClipRecord) -> (r: String)
    ensures
        r@ == search_preview(*rec),
{
    match rec.content_type {
        ClipType::Text | ClipType::Html => {
            let t = text_or_empty(&rec.text_content);
            preview_chars(t.as_str(), 50, false)
        },
        ClipType::Image => String::from_str("[图片]"),
        ClipType::Files => String::from_str("[文件]"),
    }
}

pub open spec fn opt_bytes(o: Option<Vec<u8>>) -> Option<Seq<u8>> {
    match o {
        Some(b) => Some(b@),
        None => None,
    }
}

/// `rec` fits its kind and can join the store: its id is positive and not
/// the largest, no record has its id or fingerprint, and an image record has
/// its fingerprint's blob name and that blob here already, or brings bytes
/// whose fingerprint names it.
pub open spec fn restorable(recs: Seq<ClipRecord>, blobs: Seq<Blob>, rec: ClipRecord, image: Option<Seq<u8>>) -> bool {
    &&& 1 <= rec.id < i64::MAX
    &&& fields_fit_kind(rec)
    &&& forall|i: int| !id_at(recs, i, rec.id)
    &&& !has_hash(recs, rec.content_hash@)
    &&& rec.content_type == ClipType::Image ==> rec.image_ref->Some_0@ == blob_name(rec.content_hash@)
    &&& rec.content_type == ClipType::Image && !has_blob(blobs, rec.image_ref->Some_0@) ==> image is Some
        && rec.image_ref->Some_0@ == blob_name(fingerprint(image->Some_0))
}

fn fits_kind(r: &ClipRecord) -> (b: bool)
    ensures
        b == fields_fit_kind(*r),
{
    match r.content_type {
        ClipType::Text => r.html_content.is_none() && r.image_ref.is_none() && r.file_paths.is_none(),
        ClipType::Html => r.image_ref.is_none() && r.file_paths.is_none(),
        ClipType::Image => r.text_content.is_none() && r.html_content.is_none() && r.image_ref.is_some()
            && r.file_paths.is_none(),
        ClipType::Files => r.html_content.is_none() && r.image_ref.is_none() && r.file_paths.is_some(),
    }
}

/// What an upsert of fingerprint `h` at time `now` does: where a record has
/// `h`, only its time becomes `now` and its id is returned; else a fresh
/// record with the next id is appended, unless the ids are exhausted.
pub open spec fn upserted(
    recs: Seq<ClipRecord>,
    recs2: Seq<ClipRecord>,
    next: i64,
    next2: i64,
    kind: ClipType,
    h: Seq<char>,
    now: i64,
    text: Option<Seq<char>>,
    html: Option<Seq<char>>,
    image: Option<Seq<char>>,
    files: Option<Seq<char>>,
    r: Result<i64, StoreError>,
) -> bool {
    if has_hash(recs, h) {
        exists|i: int|
            hash_at(recs, i, h) && r == Ok::<i64, StoreError>(recs[i].id) && recs2 == recs.update(
                i,
                ClipRecord { created_at: now, ..recs[i] },
            ) && next2 == next
    } else if next == i64::MAX {
        r == Err::<i64, StoreError>(StoreError::IdsExhausted) && recs2 == recs && next2 == next
    } else {
        &&& r == Ok::<i64, StoreError>(next)
        &&& next2 == next + 1
        &&& recs2.len() == recs.len() + 1
        &&& recs2.take(recs.len() as int) == recs
        &&& fresh_record(next, kind, h, now, text, html, image, files, recs2.last())
    }
}

/// After an upsert of fingerprint `h` that succeeded with id `id`, the
/// store holds a record with `h` and that id.
proof fn lemma_upsert_holds(
    recs: Seq<ClipRecord>, recs2: Seq<ClipRecord>, next: i64, next2: i64, kind: ClipType, h: Seq<char>, now: i64,
    text: Option<Seq<char>>, html: Option<Seq<char>>, image: Option<Seq<char>>, files: Option<Seq<char>>, id: i64,
) -> (i: int)
    requires
        upserted(recs, recs2, next, next2, kind, h, now, text, html, image, files, Ok::<i64, StoreError>(id)),
    ensures
        hash_at(recs2, i, h),
        recs2[i].id == id,
        recs2[i].created_at == now,
{
    if has_hash(recs, h) {
        let i = choose|i: int|
            hash_at(recs, i, h) && Ok::<i64, StoreError>(id) == Ok::<i64, StoreError>(recs[i].id) && recs2 == recs.update(
                i,
                ClipRecord { created_at: now, ..recs[i] },
            ) && next2 == next;
        i
    } else {
        recs2.len() - 1
    }
}

/// Two captures of the same content (the same fingerprint `h`, whatever their
/// kind) give the same id, and the store then holds exactly one record with
/// that fingerprint, seen last at the second capture's time.
pub proof fn lemma_dedup_by_hash(
    s0: Storage, s1: Storage, s2: Storage, h: Seq<char>,
    kind1: ClipType, t1: i64, text1: Option<Seq<char>>, html1: Option<Seq<char>>, image1: Option<Seq<char>>, files1: Option<Seq<char>>, r1: Result<i64, StoreError>,
    kind2: ClipType, t2: i64, text2: Option<Seq<char>>, html2: Option<Seq<char>>, image2: Option<Seq<char>>, files2: Option<Seq<char>>, r2: Result<i64, StoreError>,
)
    requires
        s0.wf(),
        s1.wf(),
        s2.wf(),
        upserted(s0.records(), s1.records(), s0.next_id(), s1.next_id(), kind1, h, t1, text1, html1, image1, files1, r1),
        upserted(s1.records(), s2.records(), s1.next_id(), s2.next_id(), kind2, h, t2, text2, html2, image2, files2, r2),
        r1 is Ok,
    ensures
        r2 == r1,
        exists|i: int| #[trigger] hash_at(s2.records(), i, h) && s2.records()[i].id == r1->Ok_0 && s2.records()[i].created_at == t2
            && forall|j: int| hash_at(s2.records(), j, h) ==> j == i,
{
    let i1 = lemma_upsert_holds(s0.records(), s1.records(), s0.next_id(), s1.next_id(), kind1, h, t1, text1, html1, image1, files1, r1->Ok_0);
    assert(has_hash(s1.records(), h));
    let i2 = choose|i: int|
        hash_at(s1.records(), i, h) && r2 == Ok::<i64, StoreError>(s1.records()[i].id) && s2.records() == s1.records().update(
            i,
            ClipRecord { created_at: t2, ..s1.records()[i] },
        ) && s2.next_id() == s1.next_id();
    assert(i2 == i1);
    assert(hash_at(s2.records(), i1, h));
}

/// Capturing an image the store already holds only renews its record's
/// time: the blob directory is left exactly as it was.
pub proof fn lemma_image_touch(
    s1: Storage, s2: Storage, bytes: Seq<u8>, now: i64, r: Result<i64, StoreError>,
)
    requires
        s1.wf(),
        has_hash(s1.records(), fingerprint(bytes)),
        upserted(s1.records(), s2.records(), s1.next_id(), s2.next_id(), ClipType::Image, fingerprint(bytes), now, None, None, Some(blob_name(fingerprint(bytes))), None, r),
        image_stored(s1.records(), s1.blobs(), s2.blobs(), s1.next_id(), fingerprint(bytes), bytes),
    ensures
        s2.blobs() == s1.blobs(),
        s2.records().len() == s1.records().len(),
        exists|i: int| #[trigger] hash_at(s2.records(), i, fingerprint(bytes)) && s2.records()[i].created_at == now
            && r == Ok::<i64, StoreError>(s2.records()[i].id),
{
    let h = fingerprint(bytes);
    let i = choose|i: int|
        hash_at(s1.records(), i, h) && r == Ok::<i64, StoreError>(s1.records()[i].id) && s2.records() == s1.records().update(
            i,
            ClipRecord { created_at: now, ..s1.records()[i] },
        ) && s2.next_id() == s1.next_id();
    assert(hash_at(s2.records(), i, h));
}

/// In a ranking with pinned records first, no unpinned record comes before
/// a pinned one.
pub proof fn lemma_pinned_first(recs: Seq<ClipRecord>, order: Seq<usize>, filter: bool, query: Seq<char>)
    requires
        is_ranking(recs, order, true, filter, query),
    ensures
        forall|a: int, b: int| 0 <= a < b < order.len() ==> recs[order[a] as int].is_pinned || !recs[order[b] as int].is_pinned,
{
    assert forall|a: int, b: int| 0 <= a < b < order.len() implies recs[order[a] as int].is_pinned || !recs[order[b] as int].is_pinned by {
        assert(before(recs[order[a] as int], recs[order[b] as int], true));
    }
}

} // verus!
