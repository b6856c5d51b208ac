//! Reconciliation: an optimizer result is carried into the profile and the
//! settings document, and each document is rewritten only where the result
//! changed it.

use vstd::prelude::*;
use crate::error::{LoadError, ParseError};
use crate::json::{Json, JsonValue};
use crate::optimizer::{entry_views, Optimizer};
use crate::profile::{
    gear_labels, profile_after, profile_json, profile_of, update_profile, Profile, ProfileView,
};
use crate::report::{string_views, DocumentReport, Outcome};
use crate::settings::pair_views;
use crate::settings_doc::{settings_after, settings_labels, update_settings};
use crate::text::{parse_json, parsed_json, pretty_json, render_json};

verus! {

/// The mathematical value of what is to be done with a document.
pub enum RewriteView {
    Write(Seq<char>),
    Keep,
    Failed(LoadError),
}

/// What is to be done with a document after an update.
#[derive(Debug)]
pub enum Rewrite {
    /// The document changed: this text replaces it.
    Write(String),
    /// The document is up to date: it is left as it is.
    Keep,
    /// The document could not be read or was refused: it is left as it is.
    Failed(LoadError),
}

impl View for Rewrite {
    type V = RewriteView;

    open spec fn view(&self) -> RewriteView {
        match self {
            Rewrite::Write(text) => RewriteView::Write(text@),
            Rewrite::Keep => RewriteView::Keep,
            Rewrite::Failed(e) => RewriteView::Failed(*e),
        }
    }
}

/// The labels that changed the profile, those that changed the settings
/// document, and those that found a place up to date.
#[derive(Debug)]
pub struct UpdateReport {
    pub profile_changed: Vec<String>,
    pub settings_changed: Vec<String>,
    pub skipped: Vec<String>,
}

/// The mathematical value of an update of both documents.
pub struct FilesUpdateView {
    pub profile: RewriteView,
    pub settings: RewriteView,
    pub profile_changed: Seq<Seq<char>>,
    pub settings_changed: Seq<Seq<char>>,
    pub skipped: Seq<Seq<char>>,
}

/// What an update does to both documents, and its report.
#[derive(Debug)]
pub struct FilesUpdate {
    pub profile: Rewrite,
    pub settings: Rewrite,
    pub report: UpdateReport,
}

impl View for FilesUpdate {
    type V = FilesUpdateView;

    open spec fn view(&self) -> FilesUpdateView {
        FilesUpdateView {
            profile: self.profile@,
            settings: self.settings@,
            profile_changed: string_views(self.report.profile_changed@),
            settings_changed: string_views(self.report.settings_changed@),
            skipped: string_views(self.report.skipped@),
        }
    }
}

/// Whether an update went through: neither document failed.
pub open spec fn update_succeeded(update: FilesUpdateView) -> bool {
    !(update.profile is Failed) && !(update.settings is Failed)
}

impl FilesUpdate {
    /// Whether the update went through: neither document failed.
    pub fn succeeded(&self) -> (ok: bool)
        ensures
            ok == update_succeeded(self@),
    {
        match (&self.profile, &self.settings) {
            (Rewrite::Failed(_), _) => false,
            (_, Rewrite::Failed(_)) => false,
            _ => true,
        }
    }
}

/// The mathematical value of what one document takes from an update.
pub struct DocumentUpdateView {
    pub rewrite: RewriteView,
    pub changed: Seq<Seq<char>>,
    pub skipped: Seq<Seq<char>>,
}

/// What one document takes from an update.
#[derive(Debug)]
pub struct DocumentUpdate {
    pub rewrite: Rewrite,
    pub report: DocumentReport,
}

impl View for DocumentUpdate {
    type V = DocumentUpdateView;

    open spec fn view(&self) -> DocumentUpdateView {
        DocumentUpdateView {
            rewrite: self.rewrite@,
            changed: string_views(self.report.changed@),
            skipped: string_views(self.report.skipped@),
        }
    }
}

/// The document that a text is read as. No text stands for a document that
/// could not be read.
pub open spec fn loaded(text: Option<Seq<char>>) -> Result<JsonValue, LoadError> {
    match text {
        None => Err(LoadError::Io),
        Some(t) => match parsed_json(t) {
            None => Err(LoadError::Parse(ParseError::Syntax)),
            Some(doc) => Ok(doc),
        },
    }
}

/// The value of a text that may be missing.
pub open spec fn text_view(text: Option<&str>) -> Option<Seq<char>> {
    match text {
        Some(t) => Some(t@),
        None => None,
    }
}

/// The value of a document that may have failed to load.
pub open spec fn document_view(doc: Result<Json, LoadError>) -> Result<JsonValue, LoadError> {
    match doc {
        Ok(d) => Ok(d@),
        Err(e) => Err(e),
    }
}

/// What the profile takes from a result: it is rewritten where at least one
/// gear entry changed, kept where none did, and left alone where it failed
/// to load or is no profile.
pub open spec fn profile_update(
    doc: Result<JsonValue, LoadError>,
    entries: Seq<(Seq<char>, Seq<u32>)>,
) -> DocumentUpdateView {
    match doc {
        Err(e) => DocumentUpdateView {
            rewrite: RewriteView::Failed(e),
            changed: Seq::empty(),
            skipped: Seq::empty(),
        },
        Ok(value) => match profile_of(value) {
            None => DocumentUpdateView {
                rewrite: RewriteView::Failed(LoadError::Parse(ParseError::Shape)),
                changed: Seq::empty(),
                skipped: Seq::empty(),
            },
            Some(profile) => {
                let gear = profile.breakpoints.gear;
                let changed = gear_labels(gear, entries, Outcome::Changed, gear.len() as int);
                DocumentUpdateView {
                    rewrite: if changed.len() > 0 {
                        RewriteView::Write(
                            pretty_json(profile_json(profile_after(profile, entries))),
                        )
                    } else {
                        RewriteView::Keep
                    },
                    changed,
                    skipped: gear_labels(gear, entries, Outcome::Skipped, gear.len() as int),
                }
            },
        },
    }
}

/// The profile document as it stands once an update is through: what was
/// written where the update rewrote it, and what it was before where the
/// update kept it or failed.
pub open spec fn profile_document_after(
    doc: JsonValue,
    entries: Seq<(Seq<char>, Seq<u32>)>,
) -> JsonValue {
    match profile_of(doc) {
        Some(profile) => if profile_update(Ok(doc), entries).rewrite is Write {
            profile_json(profile_after(profile, entries))
        } else {
            doc
        },
        None => doc,
    }
}

/// What the settings document takes from a result under a mapper: it is
/// rewritten where at least one pair of the mapper changed it, kept where
/// none did, and left alone where it failed to load.
pub open spec fn settings_update(
    doc: Result<JsonValue, LoadError>,
    mapper: Seq<(Seq<char>, Seq<char>)>,
    entries: Seq<(Seq<char>, Seq<u32>)>,
) -> DocumentUpdateView {
    match doc {
        Err(e) => DocumentUpdateView {
            rewrite: RewriteView::Failed(e),
            changed: Seq::empty(),
            skipped: Seq::empty(),
        },
        Ok(value) => {
            let n = mapper.len() as int;
            let changed = settings_labels(value, mapper, entries, Outcome::Changed, n);
            DocumentUpdateView {
                rewrite: if changed.len() > 0 {
                    RewriteView::Write(pretty_json(settings_after(value, mapper, entries, n)))
                } else {
                    RewriteView::Keep
                },
                changed,
                skipped: settings_labels(value, mapper, entries, Outcome::Skipped, n),
            }
        },
    }
}

/// What a result does to both documents under a mapper. The labels that
/// found a place up to date are those of the profile, then those of the
/// settings document.
pub open spec fn files_update(
    entries: Seq<(Seq<char>, Seq<u32>)>,
    profile: Result<JsonValue, LoadError>,
    settings: Result<JsonValue, LoadError>,
    mapper: Seq<(Seq<char>, Seq<char>)>,
) -> FilesUpdateView {
    let p = profile_update(profile, entries);
    let s = settings_update(settings, mapper, entries);
    FilesUpdateView {
        profile: p.rewrite,
        settings: s.rewrite,
        profile_changed: p.changed,
        settings_changed: s.changed,
        skipped: p.skipped + s.skipped,
    }
}

/// Reads a document from its text. No text stands for a document that could
/// not be read.
pub fn load_document(text: Option<&str>) -> (doc: Result<Json, LoadError>)
    ensures
        document_view(doc) == loaded(text_view(text)),
{
    match text {
        None => Err(LoadError::Io),
        Some(t) => match parse_json(t) {
            None => Err(LoadError::Parse(ParseError::Syntax)),
            Some(doc) => Ok(doc),
        },
    }
}

/// The profile that a text is read as. No text stands for a document that
/// could not be read.
pub open spec fn loaded_profile(text: Option<Seq<char>>) -> Result<ProfileView, LoadError> {
    match loaded(text) {
        Err(e) => Err(e),
        Ok(doc) => match profile_of(doc) {
            Some(profile) => Ok(profile),
            None => Err(LoadError::Parse(ParseError::Shape)),
        },
    }
}

/// Reads a profile from the text of its document. No text stands for a
/// document that could not be read.
pub fn load_profile(text: Option<&str>) -> (profile: Result<Profile, LoadError>)
    ensures
        match profile {
            Ok(p) => loaded_profile(text_view(text)) == Ok::<ProfileView, LoadError>(p@),
            Err(e) => loaded_profile(text_view(text)) == Err::<ProfileView, LoadError>(e),
        },
{
    match load_document(text) {
        Err(e) => Err(e),
        Ok(doc) => match Profile::from_json(&doc) {
            Ok(profile) => Ok(profile),
            Err(e) => Err(LoadError::Parse(e)),
        },
    }
}

/// Writes a profile as the text of its document.
pub fn save_profile(profile: &Profile) -> (text: String)
    ensures
        text@ == pretty_json(profile_json(profile@)),
{
    render_json(&profile.to_json())
}

/// Writes a document as text.
pub fn save_document(doc: &Json) -> (text: String)
    ensures
        text@ == pretty_json(doc@),
{
    render_json(doc)
}

/// Brings the profile document up to date with a result.
pub fn refresh_profile(doc: Result<Json, LoadError>, optimizer: &[Optimizer]) -> (update:
    DocumentUpdate)
    ensures
        update@ == profile_update(document_view(doc), entry_views(optimizer@)),
{
    let value = match doc {
        Ok(value) => value,
        Err(e) => {
            let report = DocumentReport { changed: Vec::new(), skipped: Vec::new() };
            assert(string_views(report.changed@) =~= Seq::empty());
            return DocumentUpdate { rewrite: Rewrite::Failed(e), report };
        },
    };
    let mut profile = match Profile::from_json(&value) {
        Ok(profile) => profile,
        Err(e) => {
            let report = DocumentReport { changed: Vec::new(), skipped: Vec::new() };
            assert(string_views(report.changed@) =~= Seq::empty());
            return DocumentUpdate { rewrite: Rewrite::Failed(LoadError::Parse(e)), report };
        },
    };
    let report = update_profile(&mut profile, optimizer);
    let rewrite = if report.changed.len() > 0 {
        Rewrite::Write(save_profile(&profile))
    } else {
        Rewrite::Keep
    };
    DocumentUpdate { rewrite, report }
}

/// Brings the settings document up to date with a result under a mapper.
pub fn refresh_settings(
    doc: Result<Json, LoadError>,
    settings_mapper: &Vec<(String, String)>,
    optimizer: &[Optimizer],
) -> (update: DocumentUpdate)
    ensures
        update@ == settings_update(document_view(doc), pair_views(settings_mapper@), entry_views(optimizer@)),
{
    let mut value = match doc {
        Ok(value) => value,
        Err(e) => {
            let report = DocumentReport { changed: Vec::new(), skipped: Vec::new() };
            assert(string_views(report.changed@) =~= Seq::empty());
            return DocumentUpdate { rewrite: Rewrite::Failed(e), report };
        },
    };
    let report = update_settings(&mut value, settings_mapper, optimizer);
    let rewrite = if report.changed.len() > 0 {
        Rewrite::Write(save_document(&value))
    } else {
        Rewrite::Keep
    };
    DocumentUpdate { rewrite, report }
}

/// Carries a result into both documents, given as they were loaded.
pub fn reconcile(
    optimizer: &[Optimizer],
    profile: Result<Json, LoadError>,
    settings: Result<Json, LoadError>,
    settings_mapper: &Vec<(String, String)>,
) -> (update: FilesUpdate)
    ensures
        update@ == files_update(
            entry_views(optimizer@),
            document_view(profile),
            document_view(settings),
            pair_views(settings_mapper@),
        ),
{
    let p = refresh_profile(profile, optimizer);
    let s = refresh_settings(settings, settings_mapper, optimizer);
    let DocumentUpdate { rewrite: profile_rewrite, report: profile_report } = p;
    let DocumentUpdate { rewrite: settings_rewrite, report: settings_report } = s;
    let DocumentReport { changed: profile_changed, skipped: profile_skipped } = profile_report;
    let DocumentReport { changed: settings_changed, skipped: mut settings_skipped } =
        settings_report;
    let mut skipped = profile_skipped;
    let ghost first = skipped@;
    let ghost second = settings_skipped@;
    skipped.append(&mut settings_skipped);
    assert(string_views(skipped@) =~= string_views(first) + string_views(second));
    FilesUpdate {
        profile: profile_rewrite,
        settings: settings_rewrite,
        report: UpdateReport { profile_changed, settings_changed, skipped },
    }
}

/// Carries a result into both documents, given as the texts that were read.
/// No text stands for a document that could not be read. A document that
/// fails leaves the other one to be updated all the same.
pub fn update_game_files(
    optimizer: &[Optimizer],
    profile_text: Option<&str>,
    settings_text: Option<&str>,
    settings_mapper: &Vec<(String, String)>,
) -> (update: FilesUpdate)
    ensures
        update@ == files_update(
            entry_views(optimizer@),
            loaded(text_view(profile_text)),
            loaded(text_view(settings_text)),
            pair_views(settings_mapper@),
        ),
{
    let profile = load_document(profile_text);
    let settings = load_document(settings_text);
    reconcile(optimizer, profile, settings, settings_mapper)
}

} // verus!
