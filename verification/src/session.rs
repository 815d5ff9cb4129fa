//! The edit-session state machine.
//!
//! One `State` value holds the chosen root directory, the current view,
//! the original and edited copies of the open document, the known match
//! files, and the unsaved-changes confirmation flow.  Every transition is
//! a method whose contract pins the whole resulting state; callers perform
//! the file reads and writes and hand the state machine plain text.

use crate::espanso_yaml::{
    empty_pair, parse, parse_doc, serialize, serialize_doc, MatchDocument, MatchPair, PairModel,
};
use crate::validate::{valid_root, RootCheck};
use crate::EditError;
use vstd::prelude::*;
use vstd::string::{StrSliceExecFns, StringExecFns};

verus! {

/// What the session currently shows: the settings page, the preferences
/// file, or one match file known by its stem.
pub enum FileId {
    Settings,
    Preferences,
    MatchFile(String),
}

/// The mathematical value of a `FileId`.
pub ghost enum FileIdModel {
    Settings,
    Preferences,
    MatchFile(Seq<char>),
}

impl View for FileId {
    type V = FileIdModel;

    open spec fn view(&self) -> FileIdModel {
        match self {
            FileId::Settings => FileIdModel::Settings,
            FileId::Preferences => FileIdModel::Preferences,
            FileId::MatchFile(name) => FileIdModel::MatchFile(name@),
        }
    }
}

/// The contents of the unsaved-changes confirmation dialog.
pub struct Prompt {
    pub title: String,
    pub message: String,
}

/// Which field of a pair an edit addresses.
#[derive(Clone, Copy, Debug, PartialEq, Eq, Structural)]
pub enum PairField {
    Trigger,
    Replace,
}

/// The document with pair `i`'s addressed field set to `v`.
pub open spec fn doc_with_edit(
    d: Seq<PairModel>,
    i: int,
    field: PairField,
    v: Seq<char>,
) -> Seq<PairModel> {
    d.update(
        i,
        match field {
            PairField::Trigger => PairModel { trigger: v, replace: d[i].replace },
            PairField::Replace => PairModel { trigger: d[i].trigger, replace: v },
        },
    )
}

/// The edit session.
pub struct State {
    /// The chosen root directory; empty while none is selected.
    pub espanso_loc: String,
    /// What the session currently shows.
    pub selected_nav: FileId,
    /// The open document as last loaded or saved.
    pub original_file: MatchDocument,
    /// The open document as currently edited.
    pub edited_file: MatchDocument,
    /// The stems of the match files under the root, in walk order.
    pub match_files: Vec<String>,
    /// The navigation target awaiting confirmation.
    pub nav_queue: Option<FileId>,
    /// The unsaved-changes prompt, while shown.
    pub prompt: Option<Prompt>,
}

impl State {
    /// The session is dirty when the edited document differs structurally
    /// from the original.
    pub open spec fn dirty(self) -> bool {
        self.edited_file@ != self.original_file@
    }

    /// Every state the machine produces keeps the edited document at least
    /// as long as the original: loads, resets and saves make the two equal,
    /// an added pair only lengthens the edited copy, and an edit rewrites a
    /// pair in place.  Under this invariant an added pair always leaves the
    /// session dirty.
    pub open spec fn wf(self) -> bool {
        self.edited_file@.len() >= self.original_file@.len()
    }

    /// The freshly started session: no root, settings shown, both
    /// documents empty, no prompt and nothing queued.
    pub fn new() -> (s: State)
        ensures
            s.espanso_loc@ == Seq::<char>::empty(),
            s.selected_nav@ is Settings,
            s.original_file@ == Seq::<PairModel>::empty(),
            s.edited_file@ == Seq::<PairModel>::empty(),
            s.match_files@.len() == 0,
            s.nav_queue is None,
            s.prompt is None,
            !s.dirty(),
            s.wf(),
    {
        State {
            espanso_loc: String::new(),
            selected_nav: FileId::Settings,
            original_file: MatchDocument::new(),
            edited_file: MatchDocument::new(),
            match_files: Vec::new(),
            nav_queue: None,
            prompt: None,
        }
    }

    /// `SelectDirectory`: a valid root is adopted together with the stems
    /// its scan produced; an invalid one changes nothing.
    pub fn select_directory(&mut self, path: String, check: RootCheck, stems: Vec<String>)
        ensures
            valid_root(check) ==> final(self).espanso_loc == path && final(self).match_files
                == stems,
            !valid_root(check) ==> final(self).espanso_loc == old(self).espanso_loc && final(self).match_files == old(self).match_files,
            final(self).selected_nav == old(self).selected_nav,
            final(self).original_file == old(self).original_file,
            final(self).edited_file == old(self).edited_file,
            final(self).nav_queue == old(self).nav_queue,
            final(self).prompt == old(self).prompt,
            old(self).wf() ==> final(self).wf(),
    {
        if crate::validate::valid_espanso_dir(&check) {
            self.espanso_loc = path;
            self.match_files = stems;
        }
    }

    /// `NavigateTo`: shows `target`.  For a Preferences or match-file
    /// target, `content` (the text of that file) is parsed into both
    /// documents, so the session is clean afterwards; a text that does not
    /// parse is reported as a format error and changes nothing.
    pub fn navigate_to(&mut self, target: FileId, content: &str) -> (r: Result<(), EditError>)
        ensures
            final(self).espanso_loc == old(self).espanso_loc,
            final(self).match_files == old(self).match_files,
            final(self).nav_queue == old(self).nav_queue,
            final(self).prompt == old(self).prompt,
            old(self).wf() ==> final(self).wf(),
            match r {
                Ok(_) => final(self).selected_nav == target && (if target@ is Settings {
                    final(self).original_file == old(self).original_file && final(self).edited_file
                        == old(self).edited_file
                } else {
                    parse_doc(content@) == Some(final(self).original_file@) && final(self).edited_file@ == final(self).original_file@ && !final(self).dirty()
                }),
                Err(e) => e == EditError::Format && !(target@ is Settings) && parse_doc(content@)
                    is None && final(self).selected_nav == old(self).selected_nav && final(self).original_file == old(self).original_file && final(self).edited_file == old(self).edited_file,
            },
    {
        let is_settings = match &target {
            FileId::Settings => true,
            _ => false,
        };
        if is_settings {
            self.selected_nav = target;
            return Ok(());
        }
        match parse(content) {
            Ok(d) => {
                self.edited_file = d.duplicate();
                self.original_file = d;
                self.selected_nav = target;
                Ok(())
            },
            Err(_) => Err(EditError::Format),
        }
    }

    /// `RequestNavigate`: a dirty session shows the unsaved-changes prompt
    /// and queues the target without changing what is shown; a clean one
    /// navigates at once.
    pub fn request_navigate(&mut self, target: FileId, content: &str) -> (r: Result<
        (),
        EditError,
    >)
        ensures
            final(self).espanso_loc == old(self).espanso_loc,
            final(self).match_files == old(self).match_files,
            old(self).wf() ==> final(self).wf(),
            old(self).dirty() ==> r is Ok && final(self).selected_nav == old(self).selected_nav
                && final(self).original_file == old(self).original_file && final(self).edited_file
                == old(self).edited_file && (final(self).nav_queue matches Some(t) && t@
                == target@) && (final(self).prompt matches Some(p) && p.title@
                == "Unsaved Changes"@ && p.message@
                == "Leaving this file will erase any unsaved changes."@),
            !old(self).dirty() ==> final(self).nav_queue == old(self).nav_queue && final(self).prompt == old(self).prompt && (match r {
                Ok(_) => final(self).selected_nav == target && (if target@ is Settings {
                    final(self).original_file == old(self).original_file && final(self).edited_file
                        == old(self).edited_file
                } else {
                    parse_doc(content@) == Some(final(self).original_file@) && final(self).edited_file@ == final(self).original_file@
                }),
                Err(e) => e == EditError::Format && !(target@ is Settings) && parse_doc(content@)
                    is None && final(self).selected_nav == old(self).selected_nav && final(self).original_file == old(self).original_file && final(self).edited_file == old(self).edited_file,
            }),
    {
        if self.is_dirty() {
            self.prompt = Some(
                Prompt {
                    title: "Unsaved Changes".to_owned(),
                    message: "Leaving this file will erase any unsaved changes.".to_owned(),
                },
            );
            self.nav_queue = Some(target);
            Ok(())
        } else {
            self.navigate_to(target, content)
        }
    }

    /// `ConfirmNavigate`: dismisses the prompt; a queued target is
    /// navigated to exactly once, the queue being cleared either way, so a
    /// second confirmation cannot navigate again.
    pub fn confirm_navigate(&mut self, content: &str) -> (r: Result<(), EditError>)
        ensures
            final(self).espanso_loc == old(self).espanso_loc,
            final(self).match_files == old(self).match_files,
            final(self).nav_queue is None,
            final(self).prompt is None,
            old(self).wf() ==> final(self).wf(),
            old(self).nav_queue is None ==> r is Ok && final(self).selected_nav == old(self).selected_nav && final(self).original_file == old(self).original_file && final(self).edited_file == old(self).edited_file,
            old(self).nav_queue matches Some(t) ==> (match r {
                Ok(_) => final(self).selected_nav@ == t@ && (if t@ is Settings {
                    final(self).original_file == old(self).original_file && final(self).edited_file
                        == old(self).edited_file
                } else {
                    parse_doc(content@) == Some(final(self).original_file@) && final(self).edited_file@ == final(self).original_file@
                }),
                Err(e) => e == EditError::Format && !(t@ is Settings) && parse_doc(content@)
                    is None && final(self).selected_nav == old(self).selected_nav && final(self).original_file == old(self).original_file && final(self).edited_file == old(self).edited_file,
            }),
    {
        self.prompt = None;
        let queued = self.nav_queue.take();
        match queued {
            None => Ok(()),
            Some(t) => self.navigate_to(t, content),
        }
    }

    /// `CancelNavigate` / dismissing the prompt: drops the prompt and any
    /// queued target without navigating.
    pub fn cancel_navigate(&mut self)
        ensures
            final(self).nav_queue is None,
            final(self).prompt is None,
            final(self).espanso_loc == old(self).espanso_loc,
            final(self).selected_nav == old(self).selected_nav,
            final(self).original_file == old(self).original_file,
            final(self).edited_file == old(self).edited_file,
            final(self).match_files == old(self).match_files,
            old(self).wf() ==> final(self).wf(),
    {
        self.prompt = None;
        self.nav_queue = None;
    }

    /// `AddPair`: appends a pair with two empty fields to the edited
    /// document; the original is untouched, so a clean session becomes
    /// dirty.
    pub fn add_pair(&mut self)
        requires
            old(self).selected_nav@ is MatchFile,
        ensures
            final(self).edited_file@ == old(self).edited_file@.push(empty_pair()),
            final(self).original_file == old(self).original_file,
            old(self).wf() ==> final(self).wf() && final(self).dirty(),
            !old(self).dirty() ==> final(self).dirty(),
            final(self).espanso_loc == old(self).espanso_loc,
            final(self).selected_nav == old(self).selected_nav,
            final(self).match_files == old(self).match_files,
            final(self).nav_queue == old(self).nav_queue,
            final(self).prompt == old(self).prompt,
    {
        proof {
            if old(self).wf() {
                lemma_add_pair_dirties(old(self).edited_file@, old(self).original_file@);
            }
            if !old(self).dirty() {
                lemma_add_pair_dirties(old(self).edited_file@, old(self).original_file@);
            }
        }
        self.edited_file.matches.push(MatchPair::empty());
        proof {
            assert(final(self).edited_file@ =~= old(self).edited_file@.push(empty_pair()));
        }
    }

    /// `EditPair`: sets one field of pair `index` of the edited document;
    /// an index at or beyond the pair count fails with an index error and
    /// changes nothing.
    pub fn edit_pair(&mut self, index: usize, field: PairField, value: String) -> (r: Result<
        (),
        EditError,
    >)
        ensures
            final(self).original_file == old(self).original_file,
            final(self).espanso_loc == old(self).espanso_loc,
            final(self).selected_nav == old(self).selected_nav,
            final(self).match_files == old(self).match_files,
            final(self).nav_queue == old(self).nav_queue,
            final(self).prompt == old(self).prompt,
            match r {
                Ok(_) => index < old(self).edited_file@.len() && final(self).edited_file@
                    == doc_with_edit(old(self).edited_file@, index as int, field, value@),
                Err(e) => e == EditError::Index && index >= old(self).edited_file@.len() && final(self).edited_file == old(self).edited_file,
            },
            (!old(self).dirty() && index < old(self).edited_file@.len() && (match field {
                PairField::Trigger => value@ != old(self).edited_file@[index as int].trigger,
                PairField::Replace => value@ != old(self).edited_file@[index as int].replace,
            })) ==> final(self).dirty(),
            old(self).wf() ==> final(self).wf(),
    {
        proof {
            let d = self.edited_file@;
            if index < d.len() && (match field {
                PairField::Trigger => value@ != d[index as int].trigger,
                PairField::Replace => value@ != d[index as int].replace,
            }) {
                lemma_edit_pair_dirties(d, index as int, field, value@);
            }
        }
        if index >= self.edited_file.matches.len() {
            return Err(EditError::Index);
        }
        let replaced = match field {
            PairField::Trigger => MatchPair {
                trigger: value,
                replace: self.edited_file.matches[index].replace.clone(),
            },
            PairField::Replace => MatchPair {
                trigger: self.edited_file.matches[index].trigger.clone(),
                replace: value,
            },
        };
        vstd::pervasive::VecAdditionalExecFns::set(
            &mut self.edited_file.matches,
            index,
            replaced,
        );
        proof {
            assert(final(self).edited_file@ =~= doc_with_edit(
                old(self).edited_file@,
                index as int,
                field,
                value@,
            ));
        }
        Ok(())
    }

    /// `ResetEdits`: restores the edited document to the original, making
    /// the session clean.
    pub fn reset_edits(&mut self)
        ensures
            final(self).edited_file@ == old(self).original_file@,
            final(self).original_file == old(self).original_file,
            !final(self).dirty(),
            final(self).wf(),
            final(self).espanso_loc == old(self).espanso_loc,
            final(self).selected_nav == old(self).selected_nav,
            final(self).match_files == old(self).match_files,
            final(self).nav_queue == old(self).nav_queue,
            final(self).prompt == old(self).prompt,
    {
        self.edited_file = self.original_file.duplicate();
    }

    /// `SaveEdits`, first half: the full text to write over the selected
    /// file (truncate-create-write).
    pub fn serialize_edits(&self) -> (r: String)
        ensures
            r@ == serialize_doc(self.edited_file@),
    {
        serialize(&self.edited_file)
    }

    /// `SaveEdits`, second half, to be called only after the write
    /// succeeded: the edited document becomes the new original.  A caller
    /// whose write failed skips this, keeping the last known-good
    /// original.
    pub fn mark_saved(&mut self)
        ensures
            final(self).original_file@ == old(self).edited_file@,
            final(self).edited_file == old(self).edited_file,
            !final(self).dirty(),
            final(self).wf(),
            final(self).espanso_loc == old(self).espanso_loc,
            final(self).selected_nav == old(self).selected_nav,
            final(self).match_files == old(self).match_files,
            final(self).nav_queue == old(self).nav_queue,
            final(self).prompt == old(self).prompt,
    {
        self.original_file = self.edited_file.duplicate();
    }


    /// The path of the file `target` names under the current root, for the
    /// caller to read or write; the settings page has no file.
    pub fn file_path_of(&self, target: &FileId) -> (r: Option<String>)
        ensures
            match r {
                Some(p) => target_path(self.espanso_loc@, target@) == Some(p@),
                None => target@ is Settings,
            },
    {
        match target {
            FileId::Settings => None,
            FileId::Preferences => {
                let mut p = self.root_with_slash();
                p.append("config/default.yml");
                Some(p)
            },
            FileId::MatchFile(stem) => {
                let mut p = self.root_with_slash();
                p.append("match/");
                p.append(stem.as_str());
                p.append(".yml");
                proof {
                    assert(p@ =~= joined_path(self.espanso_loc@, "match/"@ + stem@ + ".yml"@));
                }
                Some(p)
            },
        }
    }

    /// The root directory with exactly one trailing separator.
    fn root_with_slash(&self) -> (r: String)
        ensures
            r@ == (if self.espanso_loc@.len() > 0 && self.espanso_loc@[self.espanso_loc@.len()
                - 1] == '/' {
                self.espanso_loc@
            } else {
                self.espanso_loc@ + "/"@
            }),
            forall|rel: Seq<char>| #[trigger] joined_path(self.espanso_loc@, rel) == r@ + rel,
    {
        let mut p = self.espanso_loc.clone();
        let n = p.as_str().unicode_len();
        if n == 0 || p.as_str().get_char(n - 1) != '/' {
            p.append("/");
        }
        proof {
            assert forall|rel: Seq<char>| #[trigger] joined_path(self.espanso_loc@, rel) == p@
                + rel by {}
        }
        p
    }

    /// Whether unsaved changes exist.
    pub fn is_dirty(&self) -> (r: bool)
        ensures
            r == self.dirty(),
    {
        !self.edited_file.eq_doc(&self.original_file)
    }
}

/// The separator-aware join of a root directory and a relative path: a
/// root already ending in a slash gets no second one.
pub open spec fn joined_path(loc: Seq<char>, rel: Seq<char>) -> Seq<char> {
    if loc.len() > 0 && loc[loc.len() - 1] == '/' {
        loc + rel
    } else {
        loc + "/"@ + rel
    }
}

/// The file a target names under the root `loc`: the preferences file for
/// Preferences, the stem's match file for a match file, none for Settings.
pub open spec fn target_path(loc: Seq<char>, id: FileIdModel) -> Option<Seq<char>> {
    match id {
        FileIdModel::Settings => None,
        FileIdModel::Preferences => Some(joined_path(loc, "config/default.yml"@)),
        FileIdModel::MatchFile(stem) => Some(joined_path(loc, "match/"@ + stem + ".yml"@)),
    }
}

/// Appending a pair to an edited document no shorter than the original
/// makes the two differ: under the machine's invariant (`State::wf`) an
/// added pair always marks the session dirty.
pub proof fn lemma_add_pair_dirties(edited: Seq<PairModel>, original: Seq<PairModel>)
    requires
        edited.len() >= original.len(),
    ensures
        edited.push(empty_pair()) != original,
{
    assert(edited.push(empty_pair()).len() == edited.len() + 1);
}

/// Editing a pair field to a value other than its current one makes the
/// documents differ: such an edit always marks the session dirty.
pub proof fn lemma_edit_pair_dirties(d: Seq<PairModel>, i: int, field: PairField, v: Seq<char>)
    requires
        0 <= i < d.len(),
        (match field {
            PairField::Trigger => v != d[i].trigger,
            PairField::Replace => v != d[i].replace,
        }),
    ensures
        doc_with_edit(d, i, field, v) != d,
{
    if doc_with_edit(d, i, field, v) == d {
        assert(doc_with_edit(d, i, field, v)[i] == d[i]);
    }
}

} // verus!
