//! Conversion between clip records and the rows of the canonical table.

use vstd::prelude::*;
use crate::clip::{ClipItem, Timestamp};
use crate::codec::{decode_embedding, decoded, encode_embedding, encoded, CodecError};
use crate::outside::{
    format_rfc3339, json_of_tags, parse_rfc3339, rfc3339_instant, rfc3339_text, strings_view,
    tags_from_json, tags_in_json, tags_to_json,
};

verus! {

/// One row of the canonical table: tags as JSON text, the timestamp as
/// RFC 3339 text and the embedding as its little-endian blob.
#[derive(Debug, Clone)]
pub struct ClipRow {
    pub id: String,
    pub content: String,
    pub summary: String,
    pub tags: String,
    pub timestamp: String,
    pub source: Option<String>,
    pub embedding: Option<Vec<u8>>,
}

/// The view of an optional string.
pub open spec fn opt_view(s: Option<String>) -> Option<Seq<char>> {
    match s {
        Some(t) => Some(t@),
        None => None,
    }
}

/// The first reason why `row` cannot be read back, if any: its tags, then
/// its timestamp, then its embedding blob.
pub open spec fn row_error(row: ClipRow) -> Option<CodecError> {
    if tags_in_json(row.tags@) is None {
        Some(CodecError::Tags)
    } else if rfc3339_instant(row.timestamp@) is None {
        Some(CodecError::Timestamp)
    } else if row.embedding is Some && row.embedding->0@.len() % 4 != 0 {
        Some(CodecError::EmbeddingLength)
    } else {
        None
    }
}

/// `clip` is what `row` reads back as.
pub open spec fn read_as(row: ClipRow, clip: ClipItem) -> bool {
    &&& clip.id@ == row.id@
    &&& clip.content@ == row.content@
    &&& clip.summary@ == row.summary@
    &&& tags_in_json(row.tags@) == Some(strings_view(clip.tags@))
    &&& rfc3339_instant(row.timestamp@) == Some((clip.timestamp.secs, clip.timestamp.nanos))
    &&& opt_view(clip.source) == opt_view(row.source)
    &&& match row.embedding {
        Some(b) => clip.embedding is Some && clip.embedding->0@ == decoded(b@),
        None => clip.embedding is None,
    }
}

/// Reads a row back as a clip.
pub fn clip_from_row(row: ClipRow) -> (r: Result<ClipItem, CodecError>)
    ensures
        r is Err <==> row_error(row) is Some,
        r is Err ==> r->Err_0 == row_error(row)->0,
        r is Ok ==> read_as(row, r->Ok_0),
{
    let ghost row0 = row;
    let tags = match tags_from_json(row.tags.as_str()) {
        Ok(t) => t,
        Err(_) => {
            return Err(CodecError::Tags);
        },
    };
    let timestamp = match parse_rfc3339(row.timestamp.as_str()) {
        Some((secs, nanos)) => Timestamp { secs, nanos },
        None => {
            return Err(CodecError::Timestamp);
        },
    };
    let embedding = match row.embedding {
        Some(bytes) => match decode_embedding(&bytes) {
            Ok(words) => Some(words),
            Err(e) => {
                return Err(e);
            },
        },
        None => None,
    };
    let r = ClipItem {
        id: row.id,
        content: row.content,
        summary: row.summary,
        tags,
        timestamp,
        source: row.source,
        embedding,
    };
    assert(opt_view(r.source) == opt_view(row0.source));
    Ok(r)
}

/// An embedding stored as the encoding of `v` is read back as `v`.
pub proof fn lemma_embedding_read_back(row: ClipRow, clip: ClipItem, v: Seq<u32>)
    requires
        row.embedding is Some,
        row.embedding->0@ == encoded(v),
        read_as(row, clip),
    ensures
        clip.embedding is Some,
        clip.embedding->0@ == v,
{
    crate::codec::lemma_round_trip(v);
}

/// Reads rows back as clips, in order; fails with the first row's error.
pub fn rows_to_clips(rows: Vec<ClipRow>) -> (r: Result<Vec<ClipItem>, CodecError>)
    ensures
        r is Ok <==> forall|i: int| 0 <= i < rows@.len() ==> (#[trigger] row_error(rows@[i])) is None,
        r is Err ==> exists|i: int| 0 <= i < rows@.len()
            && (forall|k: int| 0 <= k < i ==> (#[trigger] row_error(rows@[k])) is None)
            && row_error(rows@[i]) == Some(r->Err_0),
        r is Ok ==> r->Ok_0@.len() == rows@.len()
            && forall|i: int| 0 <= i < rows@.len() ==> read_as(rows@[i], #[trigger] r->Ok_0@[i]),
{
    let ghost orig = rows@;
    let mut rest = rows;
    let mut clips: Vec<ClipItem> = Vec::new();
    let ghost mut k: int = 0;
    while rest.len() > 0
        invariant
            orig == rows@,
            0 <= k <= orig.len(),
            rest@ == orig.skip(k),
            clips@.len() == k,
            forall|i: int| 0 <= i < k ==> (#[trigger] row_error(orig[i])) is None,
            forall|i: int| 0 <= i < k ==> read_as(orig[i], #[trigger] clips@[i]),
        decreases rest@.len(),
    {
        assert(k < orig.len());
        let row = rest.remove(0);
        assert(row == orig[k]);
        match clip_from_row(row) {
            Ok(c) => {
                clips.push(c);
            },
            Err(e) => {
                assert(row_error(orig[k]) == Some(e));
                assert(0 <= k < orig.len());
                assert(forall|j: int| 0 <= j < k ==> (#[trigger] row_error(orig[j])) is None);
                assert(!(row_error(orig[k]) is None));
                return Err(e);
            },
        }
        proof {
            k = k + 1;
            assert(rest@ =~= orig.skip(k));
        }
    }
    Ok(clips)
}

/// The embedding that an insert stores: the clip's own, else the one fetched
/// for it.
pub open spec fn stored_embedding(clip: ClipItem, fetched: Option<Vec<u32>>) -> Option<Vec<u32>> {
    if clip.embedding is Some {
        clip.embedding
    } else {
        fetched
    }
}

/// Writes a clip as a row, with `fetched` as its embedding where it has none
/// of its own. Fails only where the timestamp is out of the representable
/// range.
pub fn clip_to_row(clip: ClipItem, fetched: Option<Vec<u32>>) -> (r: Result<ClipRow, CodecError>)
    requires
        stored_embedding(clip, fetched) is Some ==> 4 * stored_embedding(clip, fetched)->0@.len() <= usize::MAX,
    ensures
        r is Ok ==> ({
            let row = r->Ok_0;
            &&& row.id@ == clip.id@
            &&& row.content@ == clip.content@
            &&& row.summary@ == clip.summary@
            &&& row.tags@ == json_of_tags(strings_view(clip.tags@))
            &&& rfc3339_text(clip.timestamp.secs, clip.timestamp.nanos) == Some(row.timestamp@)
            &&& opt_view(row.source) == opt_view(clip.source)
            &&& match stored_embedding(clip, fetched) {
                Some(e) => row.embedding is Some && row.embedding->0@ == encoded(e@),
                None => row.embedding is None,
            }
        }),
        r is Ok <==> rfc3339_text(clip.timestamp.secs, clip.timestamp.nanos) is Some,
        r is Err ==> r->Err_0 == CodecError::Timestamp,
{
    let ghost clip0 = clip;
    let tags = match tags_to_json(&clip.tags) {
        Ok(t) => t,
        Err(_) => {
            return Err(CodecError::Tags);
        },
    };
    let timestamp = match format_rfc3339(clip.timestamp.secs, clip.timestamp.nanos) {
        Some(t) => t,
        None => {
            return Err(CodecError::Timestamp);
        },
    };
    let embedding = match clip.embedding {
        Some(e) => Some(encode_embedding(&e)),
        None => match fetched {
            Some(e) => Some(encode_embedding(&e)),
            None => None,
        },
    };
    let row = ClipRow {
        id: clip.id,
        content: clip.content,
        summary: clip.summary,
        tags,
        timestamp,
        source: clip.source,
        embedding,
    };
    assert(opt_view(row.source) == opt_view(clip0.source));
    Ok(row)
}

} // verus!
