//! The order in which a crawl gathers a site's pages: the bundle first where
//! the manifest offers one, else the listed pages one by one, skipping those
//! that need credentials. The caller does the fetching and hands each outcome
//! back; `Collector::step` decides what comes next.
use vstd::prelude::*;
use crate::crawl::{
    PageEntry, names_unique, document_of, bundle_pages_of, requires_auth, page_filename, parse_cbor_document,
    bundle_pages, put_page, hash_mismatch, needs_auth, path_to_filename,
};
use crate::content::{extract_page_content, page_json};
use crate::digest::{hex_text, sha256_spec};
use crate::json::{JsonValue, object_model};

verus! {

/// Where a collection stands.
#[derive(Debug, Clone, Copy)]
pub enum CollectStage {
    /// Nothing asked for yet.
    Start,
    /// The bundle was asked for.
    AwaitBundle,
    /// The listed page at this index was asked for.
    AwaitPage(usize),
    /// The listed page at this index is dealt with (kept, failed or skipped).
    After(usize),
    /// The pages are gathered.
    Finished,
    /// A fetched document could not be read; the crawl stops with its error.
    Failed,
}

/// What the caller reports back.
#[derive(Debug)]
pub enum CollectEvent {
    /// Go on (at the start, after a skipped page, after the pause that follows a page).
    Next,
    /// The bundle's bytes arrived.
    BundleFetched(Vec<u8>),
    /// The bundle could not be fetched.
    BundleFailed,
    /// The asked-for page's bytes arrived.
    PageFetched(Vec<u8>),
    /// The asked-for page could not be fetched.
    PageFailed,
}

/// What the caller is to do next.
#[derive(Debug)]
pub enum CollectAction {
    /// Fetch the site's bundle.
    FetchBundle,
    /// Fetch the listed page at this index, under this file name.
    FetchPage(usize, String),
    /// The listed page at this index needs credentials and is skipped.
    Skip(usize),
    /// The page was dealt with; where its content hash differs from the listed
    /// one, the listed and the computed hash. Pause before going on.
    Stored(Option<(String, String)>),
    /// Stop with this error, after reporting the hash difference if any.
    Fail(Option<(String, String)>, String),
    /// The pages are gathered.
    Finish,
    /// The event does not fit the stage; nothing changed.
    Idle,
}

/// A collection in progress: the listed pages, whether a bundle is offered,
/// the stage, and the pages gathered so far (by path, one member per path).
pub struct Collector {
    pub entries: Vec<PageEntry>,
    pub bundle_available: bool,
    pub stage: CollectStage,
    pub pages: Vec<(String, JsonValue)>,
}

/// The listed pages as (path, access, hash).
pub open spec fn entry_models(entries: Seq<PageEntry>) -> Seq<(Seq<char>, Seq<char>, Option<Seq<char>>)> {
    entries.map_values(|e: PageEntry| e.model())
}

/// The listed and the computed hash of fetched bytes, where they differ.
pub open spec fn mismatch_of(expected: Option<Seq<char>>, bytes: Seq<u8>) -> Option<(Seq<char>, Seq<char>)> {
    match expected {
        Some(h) => if h == hex_text(sha256_spec(bytes), false) {
            None
        } else {
            Some((h, hex_text(sha256_spec(bytes), false)))
        },
        None => None,
    }
}

pub open spec fn pair_view(p: Option<(String, String)>) -> Option<(Seq<char>, Seq<char>)> {
    match p {
        Some(x) => Some((x.0@, x.1@)),
        None => None,
    }
}

/// The stage on reaching listed page `j`: finished past the end, the page
/// skipped where it needs credentials, else asked for.
pub open spec fn stage_at(entries: Seq<(Seq<char>, Seq<char>, Option<Seq<char>>)>, j: int) -> CollectStage {
    if j >= entries.len() {
        CollectStage::Finished
    } else if requires_auth(entries[j].1) {
        CollectStage::After(j as usize)
    } else {
        CollectStage::AwaitPage(j as usize)
    }
}

/// The action on reaching listed page `j` (as `stage_at`); a page is asked
/// for under its file name.
pub open spec fn action_at(entries: Seq<(Seq<char>, Seq<char>, Option<Seq<char>>)>, j: int, a: CollectAction) -> bool {
    if j >= entries.len() {
        a is Finish
    } else if requires_auth(entries[j].1) {
        a matches CollectAction::Skip(i) && i == j
    } else {
        a matches CollectAction::FetchPage(i, f) && i == j && f@ == page_filename(entries[j].0)
    }
}

/// One step: the stage, the gathered pages and the action after `event`.
/// A bundle that is offered is asked for first; its pages are kept where it
/// has any, else (and where it cannot be fetched) the listed pages are walked
/// in order. A document that cannot be read stops the collection; a page that
/// cannot be fetched is passed over.
pub open spec fn collect_step(old: Collector, event: CollectEvent, new: Collector, a: CollectAction) -> bool {
    let es = entry_models(old.entries@);
    let same_pages = new.pages@ == old.pages@;
    match old.stage {
        CollectStage::Start => match event {
            CollectEvent::Next => if old.bundle_available {
                new.stage == CollectStage::AwaitBundle && a is FetchBundle && same_pages
            } else {
                new.stage == stage_at(es, 0) && action_at(es, 0, a) && same_pages
            },
            _ => new.stage == old.stage && a is Idle && same_pages,
        },
        CollectStage::AwaitBundle => match event {
            CollectEvent::BundleFetched(bytes) => match document_of(bytes@) {
                None => new.stage == CollectStage::Failed && (a matches CollectAction::Fail(m, _) && m is None)
                    && same_pages,
                Some(doc) => object_model(new.pages@) == bundle_pages_of(doc) && if new.pages@.len() > 0 {
                    new.stage == CollectStage::Finished && a is Finish
                } else {
                    new.stage == stage_at(es, 0) && action_at(es, 0, a)
                },
            },
            CollectEvent::BundleFailed => new.stage == stage_at(es, 0) && action_at(es, 0, a) && same_pages,
            _ => new.stage == old.stage && a is Idle && same_pages,
        },
        CollectStage::AwaitPage(i) => match event {
            CollectEvent::PageFetched(bytes) => {
                let m = mismatch_of(es[i as int].2, bytes@);
                match document_of(bytes@) {
                    None => new.stage == CollectStage::Failed && (a matches CollectAction::Fail(mm, _) && pair_view(mm)
                        == m) && same_pages,
                    Some(doc) => new.stage == CollectStage::After(i) && (a matches CollectAction::Stored(mm)
                        && pair_view(mm) == m) && object_model(new.pages@) == object_model(old.pages@).insert(
                        es[i as int].0,
                        page_json(doc),
                    ),
                }
            },
            CollectEvent::PageFailed => new.stage == CollectStage::After(i) && (a matches CollectAction::Stored(mm)
                && mm is None) && same_pages,
            _ => new.stage == old.stage && a is Idle && same_pages,
        },
        CollectStage::After(i) => match event {
            CollectEvent::Next => new.stage == stage_at(es, i + 1) && action_at(es, i + 1, a) && same_pages,
            _ => new.stage == old.stage && a is Idle && same_pages,
        },
        _ => new.stage == old.stage && a is Idle && same_pages,
    }
}

impl Collector {
    /// The gathered pages hold one member per path, and a stage that names a
    /// listed page names one that exists.
    pub open spec fn wf(&self) -> bool {
        &&& names_unique(self.pages@)
        &&& match self.stage {
            CollectStage::AwaitPage(i) => i < self.entries.len(),
            CollectStage::After(i) => i < self.entries.len(),
            _ => true,
        }
    }

    /// A collection of the listed pages, nothing gathered yet.
    pub fn new(entries: Vec<PageEntry>, bundle_available: bool) -> (r: Self)
        ensures
            r.wf(),
            r.entries@ == entries@,
            r.bundle_available == bundle_available,
            r.stage is Start,
            r.pages@.len() == 0,
    {
        Collector { entries, bundle_available, stage: CollectStage::Start, pages: Vec::new() }
    }

    /// Moves on to listed page `j` (`stage_at`, `action_at`).
    fn advance(&mut self, j: usize) -> (a: CollectAction)
        requires
            j <= old(self).entries.len(),
            names_unique(old(self).pages@),
        ensures
            final(self).entries == old(self).entries,
            final(self).bundle_available == old(self).bundle_available,
            final(self).pages@ == old(self).pages@,
            final(self).stage == stage_at(entry_models(old(self).entries@), j as int),
            action_at(entry_models(old(self).entries@), j as int, a),
            final(self).wf(),
    {
        if j >= self.entries.len() {
            self.stage = CollectStage::Finished;
            CollectAction::Finish
        } else if needs_auth(self.entries[j].access.as_str()) {
            self.stage = CollectStage::After(j);
            CollectAction::Skip(j)
        } else {
            let f = path_to_filename(self.entries[j].path.as_str());
            self.stage = CollectStage::AwaitPage(j);
            CollectAction::FetchPage(j, f)
        }
    }

    /// Takes in what the caller reports and says what to do next (`collect_step`).
    pub fn step(&mut self, event: CollectEvent) -> (a: CollectAction)
        requires
            old(self).wf(),
        ensures
            final(self).wf(),
            final(self).entries == old(self).entries,
            final(self).bundle_available == old(self).bundle_available,
            collect_step(*old(self), event, *final(self), a),
    {
        match self.stage {
            CollectStage::Start => match event {
                CollectEvent::Next => {
                    if self.bundle_available {
                        self.stage = CollectStage::AwaitBundle;
                        CollectAction::FetchBundle
                    } else {
                        self.advance(0)
                    }
                },
                _ => CollectAction::Idle,
            },
            CollectStage::AwaitBundle => match event {
                CollectEvent::BundleFetched(bytes) => match parse_cbor_document(bytes.as_slice()) {
                    Err(e) => {
                        self.stage = CollectStage::Failed;
                        CollectAction::Fail(None, e)
                    },
                    Ok(doc) => {
                        self.pages = bundle_pages(&doc);
                        if self.pages.len() > 0 {
                            self.stage = CollectStage::Finished;
                            CollectAction::Finish
                        } else {
                            self.advance(0)
                        }
                    },
                },
                CollectEvent::BundleFailed => self.advance(0),
                _ => CollectAction::Idle,
            },
            CollectStage::AwaitPage(i) => match event {
                CollectEvent::PageFetched(bytes) => {
                    let m = hash_mismatch(&self.entries[i].hash, bytes.as_slice());
                    assert(entry_models(self.entries@)[i as int] == self.entries@[i as int].model());
                    match parse_cbor_document(bytes.as_slice()) {
                        Err(e) => {
                            self.stage = CollectStage::Failed;
                            CollectAction::Fail(m, e)
                        },
                        Ok(doc) => {
                            let content = extract_page_content(&doc);
                            let path = self.entries[i].path.clone();
                            put_page(&mut self.pages, path, content);
                            self.stage = CollectStage::After(i);
                            CollectAction::Stored(m)
                        },
                    }
                },
                CollectEvent::PageFailed => {
                    self.stage = CollectStage::After(i);
                    CollectAction::Stored(None)
                },
                _ => CollectAction::Idle,
            },
            CollectStage::After(i) => match event {
                CollectEvent::Next => self.advance(i + 1),
                _ => CollectAction::Idle,
            },
            _ => CollectAction::Idle,
        }
    }
}

} // verus!
