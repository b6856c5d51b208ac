//! The state of the service: the current mapping and the last result that
//! was applied, with the decisions of the request handler and of the
//! controller that reloads the mapping.

use vstd::prelude::*;
use crate::engine::{
    files_update, loaded, text_view, update_game_files, update_succeeded, FilesUpdate,
};
use crate::error::{DecodeError, LoadError, ParseError};
use crate::optimizer::{
    decode_body, decoded_text, entry_views, results_equal, results_match, Optimizer,
};
use crate::settings::{load_settings, settings_of_text, Settings, SettingsView};

verus! {

/// Where the controller that reloads the mapping stands.
#[derive(Debug, Clone, Copy, PartialEq, Eq, Structural)]
pub enum Phase {
    /// Nothing is pending.
    Idle,
    /// A new mapping is on trial: the last result is being replayed under
    /// it, and the mapping that it replaced is kept in case the replay
    /// fails.
    Reloading,
}

/// The mathematical value of the state.
pub struct AppStateView {
    pub settings: SettingsView,
    pub optimizer: Option<Seq<(Seq<char>, Seq<u32>)>>,
    pub previous: Option<SettingsView>,
}

/// The state of the service.
#[derive(Debug)]
pub struct AppState {
    /// The current mapping. During a reload it is the new mapping, on
    /// trial.
    pub settings: Settings,
    /// The last result that was applied, if any.
    pub optimizer: Option<Vec<Optimizer>>,
    /// During a reload, the mapping that was in effect before it.
    pub previous: Option<Settings>,
}

/// Where the controller stands: in the middle of a reload exactly while a
/// previous mapping is kept.
pub open spec fn phase_of(state: AppStateView) -> Phase {
    if state.previous is Some {
        Phase::Reloading
    } else {
        Phase::Idle
    }
}

/// What holds of every state that the service reaches: a reload is under
/// way only with a last result in place, the one that is being replayed.
pub open spec fn state_valid(state: AppStateView) -> bool {
    state.previous is Some ==> state.optimizer is Some
}

/// The mapping that is in effect: during a reload the one from before it,
/// otherwise the current one.
pub open spec fn mapping_in_effect(state: AppStateView) -> SettingsView {
    match state.previous {
        Some(previous) => previous,
        None => state.settings,
    }
}

impl View for AppState {
    type V = AppStateView;

    open spec fn view(&self) -> AppStateView {
        AppStateView {
            settings: self.settings@,
            optimizer: match self.optimizer {
                Some(entries) => Some(entry_views(entries@)),
                None => None,
            },
            previous: match self.previous {
                Some(previous) => Some(previous@),
                None => None,
            },
        }
    }
}

/// A result is applied unless it matches the last one that was: with no
/// last result, every result is applied.
pub open spec fn needs_apply(
    last: Option<Seq<(Seq<char>, Seq<u32>)>>,
    incoming: Seq<(Seq<char>, Seq<u32>)>,
) -> bool {
    match last {
        Some(entries) => !results_match(entries, incoming),
        None => true,
    }
}

/// The mathematical value of what is to be done with a request.
pub enum RequestPlanView {
    Reject(DecodeError),
    Same,
    Apply(Seq<(Seq<char>, Seq<u32>)>),
}

/// What is to be done with a request.
#[derive(Debug)]
pub enum RequestPlan {
    /// The body was refused: nothing is read or written.
    Reject(DecodeError),
    /// The result matches the last one: nothing is read or written.
    Same,
    /// The result is to be carried into the documents.
    Apply(Vec<Optimizer>),
}

impl View for RequestPlan {
    type V = RequestPlanView;

    open spec fn view(&self) -> RequestPlanView {
        match self {
            RequestPlan::Reject(e) => RequestPlanView::Reject(*e),
            RequestPlan::Same => RequestPlanView::Same,
            RequestPlan::Apply(entries) => RequestPlanView::Apply(entry_views(entries@)),
        }
    }
}

/// What is to be done with a request, given what its body decoded to and
/// the last result that was applied.
pub open spec fn request_plan(
    last: Option<Seq<(Seq<char>, Seq<u32>)>>,
    request: Result<Seq<(Seq<char>, Seq<u32>)>, DecodeError>,
) -> RequestPlanView {
    match request {
        Err(e) => RequestPlanView::Reject(e),
        Ok(entries) => if needs_apply(last, entries) {
            RequestPlanView::Apply(entries)
        } else {
            RequestPlanView::Same
        },
    }
}

/// The status with which a request is answered: 200 where its body was
/// decoded, 400 where the body is no JSON, 422 where it is JSON that is
/// refused for its shape or for a repeated label.
pub open spec fn status_of(plan: RequestPlanView) -> u16 {
    match plan {
        RequestPlanView::Reject(DecodeError::Syntax) => 400,
        RequestPlanView::Reject(_) => 422,
        _ => 200,
    }
}

impl RequestPlan {
    /// The status with which the request is answered.
    pub fn status(&self) -> (code: u16)
        ensures
            code == status_of(self@),
    {
        match self {
            RequestPlan::Reject(DecodeError::Syntax) => 400,
            RequestPlan::Reject(_) => 422,
            _ => 200,
        }
    }
}

/// The value of a decoded request.
pub open spec fn request_view(request: Result<Vec<Optimizer>, DecodeError>) -> Result<
    Seq<(Seq<char>, Seq<u32>)>,
    DecodeError,
> {
    match request {
        Ok(entries) => Ok(entry_views(entries@)),
        Err(e) => Err(e),
    }
}

/// What the watcher reports.
#[derive(Debug)]
pub enum WatchEvent {
    /// The configuration file changed: this is its text, or nothing where it
    /// could not be read.
    Changed(Option<String>),
    /// The replay that was asked for has been attempted: this says whether
    /// the update went through and what it asked to write was written.
    Replayed(bool),
}

/// The mathematical value of what the watcher reports: a change carries the
/// mapping that the file was read as.
pub enum WatchEventView {
    Changed(Result<SettingsView, LoadError>),
    Replayed(bool),
}

/// What the controller asks for.
#[derive(Debug, Clone, Copy, PartialEq, Eq, Structural)]
pub enum WatchAction {
    /// Carry the last result into the documents of the new mapping, then
    /// report `Replayed` with how it went.
    Replay,
    /// Nothing is to be done.
    Rest,
    /// The new mapping could not be loaded: the state is as it was.
    Failed(LoadError),
}

/// The mapping that the text of a configuration file is read as. No text
/// stands for a file that could not be read.
pub open spec fn reloaded(text: Option<Seq<char>>) -> Result<SettingsView, LoadError> {
    match text {
        None => Err(LoadError::Io),
        Some(t) => match settings_of_text(t) {
            Ok(settings) => Ok(settings),
            Err(e) => Err(LoadError::Parse(e)),
        },
    }
}

impl View for WatchEvent {
    type V = WatchEventView;

    open spec fn view(&self) -> WatchEventView {
        match self {
            WatchEvent::Changed(Some(text)) => WatchEventView::Changed(reloaded(Some(text@))),
            WatchEvent::Changed(None) => WatchEventView::Changed(reloaded(None)),
            WatchEvent::Replayed(went_through) => WatchEventView::Replayed(*went_through),
        }
    }
}

/// The state after a new mapping was loaded, or failed to load, and what
/// the controller asks for. With a last result in place, a mapping that
/// loaded goes on trial: the mapping in effect is kept beside it and the
/// controller asks for the replay. With no last result there is nothing to
/// replay, and the new mapping replaces the previous one whole. A mapping
/// that failed to load leaves the state as it was.
pub open spec fn install_step(state: AppStateView, mapping: Result<SettingsView, LoadError>) -> (
    AppStateView,
    WatchAction,
) {
    match mapping {
        Ok(settings) => if state.optimizer is Some {
            (
                AppStateView {
                    settings,
                    optimizer: state.optimizer,
                    previous: Some(mapping_in_effect(state)),
                },
                WatchAction::Replay,
            )
        } else {
            (
                AppStateView { settings, optimizer: state.optimizer, previous: None },
                WatchAction::Rest,
            )
        },
        Err(e) => (state, WatchAction::Failed(e)),
    }
}

/// The state once a replay has been attempted. The controller is idle
/// again however the replay went: where it went through, the new mapping
/// stays in place; where it failed, the previous mapping is put back. With
/// no reload under way the state is as it was.
pub open spec fn replayed_step(state: AppStateView, went_through: bool) -> AppStateView {
    match state.previous {
        Some(previous) => AppStateView {
            settings: if went_through {
                state.settings
            } else {
                previous
            },
            optimizer: state.optimizer,
            previous: None,
        },
        None => state,
    }
}

/// The state after an event of the watcher, and what the controller asks
/// for.
pub open spec fn watch_step(state: AppStateView, event: WatchEventView) -> (
    AppStateView,
    WatchAction,
) {
    match event {
        WatchEventView::Changed(mapping) => install_step(state, mapping),
        WatchEventView::Replayed(went_through) => (
            replayed_step(state, went_through),
            WatchAction::Rest,
        ),
    }
}

/// The value of a mapping that may have failed to load.
pub open spec fn mapping_view(mapping: Result<Settings, LoadError>) -> Result<
    SettingsView,
    LoadError,
> {
    match mapping {
        Ok(settings) => Ok(settings@),
        Err(e) => Err(e),
    }
}

/// Starts the service from the text of the configuration file: the mapping
/// is the one that the text is read as, and no result has been applied.
pub fn load_state(text: &str) -> (state: Result<AppState, ParseError>)
    ensures
        match state {
            Ok(s) => settings_of_text(text@) == Ok::<SettingsView, ParseError>(s@.settings)
                && s@.optimizer is None && s@.previous is None,
            Err(e) => settings_of_text(text@) == Err::<SettingsView, ParseError>(e),
        },
{
    match load_settings(text) {
        Ok(settings) => Ok(AppState::new(settings)),
        Err(e) => Err(e),
    }
}

impl AppState {
    /// The state of a service that starts with a mapping: no result has
    /// been applied and the controller is idle.
    pub fn new(settings: Settings) -> (state: AppState)
        ensures
            state@ == (AppStateView { settings: settings@, optimizer: None, previous: None }),
    {
        AppState { settings, optimizer: None, previous: None }
    }

    /// Where the controller stands.
    pub fn phase(&self) -> (phase: Phase)
        ensures
            phase == phase_of(self@),
    {
        if self.previous.is_some() {
            Phase::Reloading
        } else {
            Phase::Idle
        }
    }

    /// Whether a result is to be applied: it is unless it matches the last
    /// one that was.
    pub fn should_apply(&self, incoming: &[Optimizer]) -> (apply: bool)
        ensures
            apply == needs_apply(self@.optimizer, entry_views(incoming@)),
    {
        match &self.optimizer {
            Some(last) => !results_equal(last.as_slice(), incoming),
            None => true,
        }
    }

    /// Takes a result as the last one that was applied.
    pub fn commit(&mut self, incoming: Vec<Optimizer>)
        ensures
            final(self)@.optimizer == Some(entry_views(incoming@)),
            final(self)@.settings == old(self)@.settings,
            final(self)@.previous == old(self)@.previous,
    {
        self.optimizer = Some(incoming);
    }

    /// Decides what is to be done with a request whose body has been
    /// decoded.
    pub fn plan_request(&self, request: Result<Vec<Optimizer>, DecodeError>) -> (plan: RequestPlan)
        ensures
            plan@ == request_plan(self@.optimizer, request_view(request)),
    {
        match request {
            Err(e) => RequestPlan::Reject(e),
            Ok(entries) => {
                if self.should_apply(entries.as_slice()) {
                    RequestPlan::Apply(entries)
                } else {
                    RequestPlan::Same
                }
            },
        }
    }

    /// Decides what is to be done with a request, given the text of its
    /// body. The state is the same afterwards, whatever the body holds.
    pub fn update_files(&self, body: &str) -> (plan: RequestPlan)
        ensures
            plan@ == request_plan(self@.optimizer, decoded_text(body@)),
    {
        self.plan_request(decode_body(body))
    }

    /// Carries a result into both documents under the current mapping. The
    /// documents are given as the texts that were read, and no text stands
    /// for a document that could not be read.
    pub fn apply(
        &self,
        optimizer: &[Optimizer],
        profile_text: Option<&str>,
        settings_text: Option<&str>,
    ) -> (update: FilesUpdate)
        ensures
            update@ == files_update(
                entry_views(optimizer@),
                loaded(text_view(profile_text)),
                loaded(text_view(settings_text)),
                self@.settings.settings_mapper,
            ),
    {
        update_game_files(
            optimizer,
            profile_text,
            settings_text,
            self.settings.settings_mapper(),
        )
    }

    /// Carries the last result into both documents under the current
    /// mapping: `None` where no result has been applied yet.
    pub fn replay(&self, profile_text: Option<&str>, settings_text: Option<&str>) -> (update:
        Option<FilesUpdate>)
        ensures
            match update {
                Some(u) => self@.optimizer is Some && u@ == files_update(
                    self@.optimizer.unwrap(),
                    loaded(text_view(profile_text)),
                    loaded(text_view(settings_text)),
                    self@.settings.settings_mapper,
                ),
                None => self@.optimizer is None,
            },
    {
        match &self.optimizer {
            Some(last) => Some(self.apply(last.as_slice(), profile_text, settings_text)),
            None => None,
        }
    }

    /// Ends a request whose result was carried into the documents: the
    /// result becomes the last one that was applied if the update went
    /// through and what it asked to write was written.
    pub fn complete(&mut self, incoming: Vec<Optimizer>, update: &FilesUpdate, written: bool) -> (
        committed: bool)
        ensures
            committed == (update_succeeded(update@) && written),
            final(self)@.optimizer == if committed {
                Some(entry_views(incoming@))
            } else {
                old(self)@.optimizer
            },
            final(self)@.settings == old(self)@.settings,
            final(self)@.previous == old(self)@.previous,
    {
        if update.succeeded() && written {
            self.commit(incoming);
            true
        } else {
            false
        }
    }

    /// Takes a mapping that was loaded, or notes that it failed to load.
    pub fn install(&mut self, mapping: Result<Settings, LoadError>) -> (action: WatchAction)
        ensures
            (final(self)@, action) == install_step(old(self)@, mapping_view(mapping)),
    {
        match mapping {
            Ok(settings) => {
                if self.optimizer.is_some() {
                    if self.previous.is_none() {
                        self.previous = Some(self.settings.clone());
                    }
                    self.settings = settings;
                    WatchAction::Replay
                } else {
                    self.previous = None;
                    self.settings = settings;
                    WatchAction::Rest
                }
            },
            Err(e) => WatchAction::Failed(e),
        }
    }

    /// Ends a reload whose replay has been attempted: the new mapping stays
    /// where the replay went through, and the previous one is put back
    /// where it failed.
    pub fn end_reload(&mut self, went_through: bool)
        ensures
            final(self)@ == replayed_step(old(self)@, went_through),
    {
        match self.previous.take() {
            Some(previous) => {
                if !went_through {
                    self.settings = previous;
                }
            },
            None => {},
        }
    }

    /// Ends a reload whose replay gave an update: the replay went through
    /// if neither document failed and what the update asked to write was
    /// written.
    pub fn complete_replay(&mut self, update: &FilesUpdate, written: bool) -> (went_through: bool)
        ensures
            went_through == (update_succeeded(update@) && written),
            final(self)@ == replayed_step(old(self)@, went_through),
    {
        let went_through = update.succeeded() && written;
        self.end_reload(went_through);
        went_through
    }

    /// Handles an event of the watcher.
    pub fn handle_event(&mut self, event: WatchEvent) -> (action: WatchAction)
        ensures
            (final(self)@, action) == watch_step(old(self)@, event@),
    {
        match event {
            WatchEvent::Changed(Some(text)) => {
                let mapping = match load_settings(text.as_str()) {
                    Ok(settings) => Ok(settings),
                    Err(e) => Err(LoadError::Parse(e)),
                };
                self.install(mapping)
            },
            WatchEvent::Changed(None) => self.install(Err(LoadError::Io)),
            WatchEvent::Replayed(went_through) => {
                self.end_reload(went_through);
                WatchAction::Rest
            },
        }
    }
}

} // verus!
