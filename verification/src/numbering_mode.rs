//! The window for numbering by hand: which preview it waits for, what its toolbar shows,
//! and what it says.

use crate::note;
use crate::note::Note;
use crate::numbering_state::NumberingState;
use crate::ocr_setup;
use crate::ocr_setup::StickerTemplate;
use crate::paths;
use crate::paths::FilePath;
use crate::score::Score;
use crate::text;
use vstd::prelude::*;

verus! {

/// The window for numbering by hand.
#[derive(Debug)]
pub struct NumberingMode {
    pub state: NumberingState,
    pub preview_version: usize,
}

/// A preview that is to be made.
#[derive(Debug)]
pub struct ImageRequest {
    pub version: usize,
    pub path: FilePath,
}

/// What becomes of a preview: it is shown, its image leaves the queue because it
/// cannot be read, or it came too late.
#[derive(Clone, Copy, Debug, PartialEq, Eq, Structural)]
pub enum ImageOutcome {
    Show,
    Remove,
    Outdated,
}

/// The number after another one, which starts anew after the largest one.
pub open spec fn next_version(version: usize) -> usize {
    if version == usize::MAX {
        0
    } else {
        (version + 1) as usize
    }
}

/// What the toolbar shows.
#[derive(Debug)]
pub struct ToolbarView {
    pub progress: String,
    pub can_clear_sticker: bool,
    pub template: Option<String>,
}

impl NumberingMode {
    /// Asks for the preview of the image that is shown, where there is one. Previews that
    /// were asked for before are outdated from then on.
    pub fn load_current_image(&mut self) -> (request: Option<ImageRequest>)
        ensures
            final(self).state == old(self).state,
            match old(self).state.shown_path() {
                Some(path) => {
                    &&& final(self).preview_version == next_version(old(self).preview_version)
                    &&& request matches Some(r) && r.version == final(self).preview_version
                        && r.path@ == path
                },
                None => request is None && final(self).preview_version == old(
                    self).preview_version,
            },
    {
        let path = match self.state.current_image() {
            Some(path) => path.clone(),
            None => {
                return None;
            },
        };
        self.preview_version = if self.preview_version == usize::MAX {
            0
        } else {
            self.preview_version + 1
        };
        Some(ImageRequest { version: self.preview_version, path })
    }

    /// What becomes of a preview that was made, or could not be.
    pub fn finish_preview(&self, request: &ImageRequest, made: bool) -> (outcome: ImageOutcome)
        ensures
            outcome == (if request.version != self.preview_version {
                ImageOutcome::Outdated
            } else if made {
                ImageOutcome::Show
            } else {
                ImageOutcome::Remove
            }),
    {
        if request.version != self.preview_version {
            ImageOutcome::Outdated
        } else if made {
            ImageOutcome::Show
        } else {
            ImageOutcome::Remove
        }
    }

    fn announce(&mut self, before: &str, what: &str)
        ensures
            final(self).state.status_message@ == before@ + what@,
            *final(self) == (NumberingMode {
                state: NumberingState {
                    status_message: final(self).state.status_message,
                    ..old(self).state
                },
                ..*old(self)
            }),
    {
        let mut message = text::owned(before);
        text::push_text(&mut message, what);
        self.state.status_message = message;
    }

    /// A template of the sticker was chosen. Tells whether it was taken.
    pub fn template_chosen(&mut self, path: &FilePath, set: Result<(), String>) -> (taken: bool)
        ensures
            taken == set is Ok,
            final(self).state.status_message@ == (match set {
                Ok(_) => "Sticker template loaded: "@ + (match paths::file_name_text(path@) {
                    Some(name) => name,
                    None => "template"@,
                }),
                Err(why) => "Template load failed: "@ + why@,
            }),
            *final(self) == (NumberingMode {
                state: NumberingState {
                    status_message: final(self).state.status_message,
                    ..old(self).state
                },
                ..*old(self)
            }),
    {
        match set {
            Ok(()) => {
                let label = match path.file_name_text() {
                    Some(name) => name,
                    None => text::owned("template"),
                };
                self.announce("Sticker template loaded: ", label.as_str());
                true
            },
            Err(why) => {
                self.announce("Template load failed: ", why.as_str());
                false
            },
        }
    }

    /// The template of the sticker was forgotten.
    pub fn template_cleared(&mut self)
        ensures
            final(self).state.status_message@ == "Sticker template cleared"@,
            *final(self) == (NumberingMode {
                state: NumberingState {
                    status_message: final(self).state.status_message,
                    ..old(self).state
                },
                ..*old(self)
            }),
    {
        self.state.status_message = text::owned("Sticker template cleared");
    }

    /// The window for autonomous numbering was opened, or could not be.
    pub fn autonomous_window_opened(&mut self, opened: Result<(), String>)
        ensures
            final(self).state.status_message@ == (match opened {
                Ok(_) => "Autonomous numbering window opened"@,
                Err(why) => "Failed to open autonomous numbering window: "@ + why@,
            }),
            *final(self) == (NumberingMode {
                state: NumberingState {
                    status_message: final(self).state.status_message,
                    ..old(self).state
                },
                ..*old(self)
            }),
    {
        match opened {
            Ok(()) => {
                self.state.status_message = text::owned("Autonomous numbering window opened");
            },
            Err(why) => {
                self.announce("Failed to open autonomous numbering window: ", why.as_str());
            },
        }
    }

    /// A number could not be confirmed.
    pub fn confirm_failed(&mut self, why: &str)
        ensures
            final(self).state.status_message@ == "Error: "@ + why@,
            *final(self) == (NumberingMode {
                state: NumberingState {
                    status_message: final(self).state.status_message,
                    ..old(self).state
                },
                ..*old(self)
            }),
    {
        self.announce("Error: ", why);
    }

    /// A move could not be taken back.
    pub fn undo_failed(&mut self, why: &str)
        ensures
            final(self).state.status_message@ == "Undo failed: "@ + why@,
            *final(self) == (NumberingMode {
                state: NumberingState {
                    status_message: final(self).state.status_message,
                    ..old(self).state
                },
                ..*old(self)
            }),
    {
        self.announce("Undo failed: ", why);
    }

    /// What the toolbar shows: how far the numbering is, and the template of the sticker.
    pub fn render_toolbar(&self, store: &Option<StickerTemplate>) -> (view: ToolbarView)
        requires
            self.state.image_paths@.len() + self.state.undo_stack@.len() <= usize::MAX,
        ensures
            view.progress@ == self.state.progress_line(),
            view.can_clear_sticker == (*store is Some),
            text::optional_text(view.template) == (match *store {
                Some(template) => match paths::file_name_text(template.path@) {
                    Some(name) => Some("Template: "@ + name),
                    None => None,
                },
                None => None,
            }),
    {
        let template = match ocr_setup::sticker_template_name(store) {
            Some(name) => {
                let mut label = text::owned("Template: ");
                text::push_text(&mut label, name.as_str());
                Some(label)
            },
            None => None,
        };
        ToolbarView {
            progress: self.state.progress_text(),
            can_clear_sticker: ocr_setup::has_sticker_template(store),
            template,
        }
    }
}

/// How far the picture is zoomed in, as it is shown.
pub fn zoom_title(percent: Score) -> (title: Note)
    ensures
        title@ == seq![note::words("Zoom: "@), note::fixed(percent, 0), note::words("%"@)],
{
    let mut title = Note::of_text("Zoom: ");
    title.write(percent, 0);
    title.say("%");
    assert(title@ =~= seq![note::words("Zoom: "@), note::fixed(percent, 0), note::words("%"@)]);
    title
}

/// The numbers of previews go up by one, and after the largest one comes zero; so two in a
/// row always differ.
pub proof fn previews_are_numbered_on(version: usize)
    ensures
        version < usize::MAX ==> next_version(version) == version + 1,
        next_version(usize::MAX) == 0,
        next_version(version) != version,
{
}

}
