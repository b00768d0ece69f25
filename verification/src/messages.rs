//! Wire-level message types of the hub and their mathematical views.
//!
//! Inbound text frames carry one tagged envelope selecting one of seven
//! payload variants; the envelope text itself is handled by `codec`. The
//! types here are the decoded values the rest of the core works on.

use vstd::prelude::*;

verus! {

/// An outbound text frame for exactly one connection.
pub struct WsMessage(pub String);

/// Start watching one reader (source) of a comic.
#[derive(Debug, Clone, PartialEq, Eq)]
pub struct TrackReader {
    pub comic_label: String,
    pub name: String,
    pub has_update: bool,
}

/// Refresh the stored state of one reader of a comic.
#[derive(Debug, Clone, PartialEq, Eq)]
pub struct UpdateReader {
    pub comic_label: String,
    pub name: String,
    pub has_update: bool,
}

/// Stop watching one reader of a comic.
#[derive(Debug, Clone, PartialEq, Eq)]
pub struct UntrackReader {
    pub comic_label: String,
    pub name: String,
}

/// Start tracking a comic, with its first reader.
#[derive(Debug, Clone, PartialEq, Eq)]
pub struct TrackComic {
    pub label: String,
    pub chapter: i32,
    pub page: Option<i32>,
    pub source: TrackReader,
}

/// Refresh a tracked comic and the state of its readers.
#[derive(Debug, Clone, PartialEq, Eq)]
pub struct UpdateComic {
    pub label: String,
    pub chapter: i32,
    pub page: Option<i32>,
    pub readers: Vec<UpdateReader>,
}

/// Stop tracking a comic altogether.
#[derive(Debug, Clone, PartialEq, Eq)]
pub struct UntrackComic {
    pub label: String,
}

/// A comic, referred to externally by its unique label.
#[derive(Debug, Clone, PartialEq, Eq)]
pub struct Comic {
    pub label: String,
}

/// One source a comic is read from, unique by name per comic.
#[derive(Debug, Clone, PartialEq, Eq)]
pub struct ComicSource {
    pub name: String,
}

/// A comic together with its sources, as listed to a client.
#[derive(Debug, Clone, PartialEq, Eq)]
pub struct ComicEntry {
    pub comic: Comic,
    pub sources: Vec<ComicSource>,
}

/// The reply to a `ListComics` query.
#[derive(Debug, Clone, PartialEq, Eq)]
pub struct ComicListing {
    pub comics: Vec<ComicEntry>,
}

/// Ask for the listing of tracked comics; the one request/response kind.
#[derive(Debug, Clone, PartialEq, Eq)]
pub struct ListComics {}

/// The seven tagged payload variants an inbound envelope selects from.
#[derive(Debug, Clone, PartialEq, Eq)]
pub enum MessagePayload {
    TrackReader(TrackReader),
    UpdateReader(UpdateReader),
    UntrackReader(UntrackReader),
    TrackComic(TrackComic),
    UpdateComic(UpdateComic),
    UntrackComic(UntrackComic),
    ListComics(ListComics),
}

/// A decoded inbound envelope: the payload, stamped with the session's
/// resolved client identity and its session id (never taken from the wire).
#[derive(Debug, Clone, PartialEq, Eq)]
pub struct BmcMessage {
    pub client_id: String,
    pub ws_id: i64,
    pub payload: MessagePayload,
}

// Mathematical views of the payload variants, used by every contract that
// speaks about message values.

pub struct TrackReaderV {
    pub comic_label: Seq<char>,
    pub name: Seq<char>,
    pub has_update: bool,
}

pub struct UpdateReaderV {
    pub comic_label: Seq<char>,
    pub name: Seq<char>,
    pub has_update: bool,
}

pub struct UntrackReaderV {
    pub comic_label: Seq<char>,
    pub name: Seq<char>,
}

pub struct TrackComicV {
    pub label: Seq<char>,
    pub chapter: i32,
    pub page: Option<i32>,
    pub source: TrackReaderV,
}

#[verifier::ext_equal]
pub struct UpdateComicV {
    pub label: Seq<char>,
    pub chapter: i32,
    pub page: Option<i32>,
    pub readers: Seq<UpdateReaderV>,
}

pub struct UntrackComicV {
    pub label: Seq<char>,
}

pub struct ComicV {
    pub label: Seq<char>,
}

pub struct ComicSourceV {
    pub name: Seq<char>,
}

#[verifier::ext_equal]
pub struct ComicEntryV {
    pub comic: ComicV,
    pub sources: Seq<ComicSourceV>,
}

#[verifier::ext_equal]
pub struct ComicListingV {
    pub comics: Seq<ComicEntryV>,
}

#[verifier::ext_equal]
pub enum PayloadV {
    TrackReader(TrackReaderV),
    UpdateReader(UpdateReaderV),
    UntrackReader(UntrackReaderV),
    TrackComic(TrackComicV),
    UpdateComic(UpdateComicV),
    UntrackComic(UntrackComicV),
    ListComics,
}

#[verifier::ext_equal]
pub struct BmcMessageV {
    pub client_id: Seq<char>,
    pub ws_id: i64,
    pub payload: PayloadV,
}

impl View for TrackReader {
    type V = TrackReaderV;

    open spec fn view(&self) -> TrackReaderV {
        TrackReaderV {
            comic_label: self.comic_label@,
            name: self.name@,
            has_update: self.has_update,
        }
    }
}

impl View for UpdateReader {
    type V = UpdateReaderV;

    open spec fn view(&self) -> UpdateReaderV {
        UpdateReaderV {
            comic_label: self.comic_label@,
            name: self.name@,
            has_update: self.has_update,
        }
    }
}

impl View for UntrackReader {
    type V = UntrackReaderV;

    open spec fn view(&self) -> UntrackReaderV {
        UntrackReaderV { comic_label: self.comic_label@, name: self.name@ }
    }
}

impl View for TrackComic {
    type V = TrackComicV;

    open spec fn view(&self) -> TrackComicV {
        TrackComicV {
            label: self.label@,
            chapter: self.chapter,
            page: self.page,
            source: self.source@,
        }
    }
}

impl View for UpdateComic {
    type V = UpdateComicV;

    open spec fn view(&self) -> UpdateComicV {
        UpdateComicV {
            label: self.label@,
            chapter: self.chapter,
            page: self.page,
            readers: self.readers@.map_values(|r: UpdateReader| r@),
        }
    }
}

impl View for UntrackComic {
    type V = UntrackComicV;

    open spec fn view(&self) -> UntrackComicV {
        UntrackComicV { label: self.label@ }
    }
}

impl View for Comic {
    type V = ComicV;

    open spec fn view(&self) -> ComicV {
        ComicV { label: self.label@ }
    }
}

impl View for ComicSource {
    type V = ComicSourceV;

    open spec fn view(&self) -> ComicSourceV {
        ComicSourceV { name: self.name@ }
    }
}

impl View for ComicEntry {
    type V = ComicEntryV;

    open spec fn view(&self) -> ComicEntryV {
        ComicEntryV {
            comic: self.comic@,
            sources: self.sources@.map_values(|s: ComicSource| s@),
        }
    }
}

impl View for ComicListing {
    type V = ComicListingV;

    open spec fn view(&self) -> ComicListingV {
        ComicListingV { comics: self.comics@.map_values(|e: ComicEntry| e@) }
    }
}

impl View for MessagePayload {
    type V = PayloadV;

    open spec fn view(&self) -> PayloadV {
        match self {
            MessagePayload::TrackReader(m) => PayloadV::TrackReader(m@),
            MessagePayload::UpdateReader(m) => PayloadV::UpdateReader(m@),
            MessagePayload::UntrackReader(m) => PayloadV::UntrackReader(m@),
            MessagePayload::TrackComic(m) => PayloadV::TrackComic(m@),
            MessagePayload::UpdateComic(m) => PayloadV::UpdateComic(m@),
            MessagePayload::UntrackComic(m) => PayloadV::UntrackComic(m@),
            MessagePayload::ListComics(_) => PayloadV::ListComics,
        }
    }
}

impl View for BmcMessage {
    type V = BmcMessageV;

    open spec fn view(&self) -> BmcMessageV {
        BmcMessageV { client_id: self.client_id@, ws_id: self.ws_id, payload: self.payload@ }
    }
}

} // verus!
