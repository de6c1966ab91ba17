//! Bookmarks of the file that is played: making, showing, deleting and going to them.

use vstd::prelude::*;

use crate::app;
use crate::app::{Action, ActionView, App, AppView, InputMode, Step};
use crate::editor::{EditorView, Key, KeyPress, LineEditor};
use crate::player::{CommandView, Output};
use crate::storage::{BookmarkEntry, BookmarkList, BookmarkView};
use crate::text;
use crate::time;
use crate::ui;

verus! {

/// A new bookmark. One without a label gets its place as the label.
pub open spec fn new_bookmark(place: nat, typed: Seq<char>, epoch: u64) -> BookmarkView {
    let label = text::trim(typed);
    BookmarkView {
        id: text::decimal(epoch as nat) + "-"@ + text::decimal(
            place / (time::NANOS_PER_SEC as nat),
        ),
        position: place,
        label: if label.len() == 0 {
            ui::clock(place)
        } else {
            label
        },
        created_at_epoch_seconds: epoch,
    }
}

impl AppView {
    /// The bookmarks of a file.
    pub open spec fn bookmarks_under(self, key: Seq<char>) -> Seq<BookmarkView> {
        if self.bookmarks.contains_key(key) {
            self.bookmarks[key]
        } else {
            seq![]
        }
    }

    /// The key of the file that is played.
    pub open spec fn playing_key(self) -> Option<Seq<char>> {
        match self.player.file {
            Some(track) => Some(app::track_key(track, self.follow())),
            None => None,
        }
    }

    /// The bookmarks of the file that is played.
    pub open spec fn current_bookmarks(self) -> Seq<BookmarkView> {
        match self.playing_key() {
            Some(key) => self.bookmarks_under(key),
            None => seq![],
        }
    }

    /// A bookmark is to be made where playback is.
    pub open spec fn bookmark_asked(self, reported: nat) -> Step {
        if self.player.file is None {
            self.saying("Nothing is playing."@)
        } else {
            (AppView {
                bookmark_place: self.player.position(reported),
                input_mode: InputMode::BookmarkLabel,
                editor: EditorView::holding(seq![]),
                status: ""@,
                ..self
            }).unchanged()
        }
    }

    /// A bookmark is made.
    pub open spec fn bookmark_made(self, epoch: u64) -> Step {
        let closed = AppView { input_mode: InputMode::Normal, ..self };
        match self.playing_key() {
            None => closed.saying("Nothing is playing."@),
            Some(key) => {
                let made = new_bookmark(self.bookmark_place, self.editor.line, epoch);
                Step {
                    app: AppView {
                        bookmarks: self.bookmarks.insert(
                            key,
                            self.bookmarks_under(key).push(made),
                        ),
                        status: "Bookmarked "@ + made.label,
                        ..closed
                    },
                    actions: seq![ActionView::SaveBookmarkStore],
                }
            },
        }
    }

    /// The bookmarks are shown, unless there is none.
    pub open spec fn bookmarks_opened(self) -> Step {
        if self.player.file is None {
            self.saying("Nothing is playing."@)
        } else if self.current_bookmarks().len() == 0 {
            self.saying("No bookmarks for this file."@)
        } else {
            (AppView {
                input_mode: InputMode::Bookmarks,
                bookmark_cursor: 0,
                status: ""@,
                ..self
            }).unchanged()
        }
    }

    /// Playback goes to the chosen bookmark.
    pub open spec fn bookmark_chosen(self, reported: nat) -> Step {
        let closed = AppView { input_mode: InputMode::Normal, ..self };
        let list = self.current_bookmarks();
        if 0 <= self.bookmark_cursor < list.len() {
            let chosen = list[self.bookmark_cursor];
            let step = closed.seeking(self.player.seek(chosen.position), reported);
            Step { app: AppView { status: "Jumped to "@ + chosen.label, ..step.app }, ..step }
        } else {
            closed.unchanged()
        }
    }

    /// The chosen bookmark is deleted; the dialog closes with the last one.
    pub open spec fn bookmark_deleted(self) -> Step {
        let list = self.current_bookmarks();
        match self.playing_key() {
            Some(key) => if 0 <= self.bookmark_cursor < list.len() {
                let rest = list.remove(self.bookmark_cursor);
                Step {
                    app: AppView {
                        bookmarks: self.bookmarks.insert(key, rest),
                        bookmark_cursor: if self.bookmark_cursor < rest.len() {
                            self.bookmark_cursor
                        } else if rest.len() > 0 {
                            rest.len() - 1
                        } else {
                            0
                        },
                        input_mode: if rest.len() > 0 {
                            self.input_mode
                        } else {
                            InputMode::Normal
                        },
                        status: "Deleted "@ + list[self.bookmark_cursor].label,
                        ..self
                    },
                    actions: seq![ActionView::SaveBookmarkStore],
                }
            } else {
                self.unchanged()
            },
            None => self.unchanged(),
        }
    }

    /// Another bookmark is chosen: the next one, or the one before.
    pub open spec fn bookmark_cursor_moved(self, down: bool) -> Step {
        (AppView {
            bookmark_cursor: if down {
                if self.bookmark_cursor + 1 < self.current_bookmarks().len() {
                    self.bookmark_cursor + 1
                } else {
                    self.bookmark_cursor
                }
            } else if self.bookmark_cursor > 0 {
                self.bookmark_cursor - 1
            } else {
                0
            },
            ..self
        }).unchanged()
    }

    /// A key in the dialog for a bookmark's label.
    pub open spec fn bookmark_label_key(self, press: KeyPress, epoch: u64) -> Step {
        match self.editor.edited(press) {
            Some(editor) => (AppView { editor, ..self }).unchanged(),
            None => match press.key {
                Key::Esc => (AppView { input_mode: InputMode::Normal, ..self }).saying(
                    "Bookmark entry canceled."@,
                ),
                Key::Enter => self.bookmark_made(epoch),
                _ => self.unchanged(),
            },
        }
    }

    /// A key in the list of bookmarks.
    pub open spec fn bookmarks_key(self, key: Key, reported: nat) -> Step {
        match key {
            Key::Enter => self.bookmark_chosen(reported),
            Key::Char('d') => self.bookmark_deleted(),
            Key::Up => self.bookmark_cursor_moved(false),
            Key::Char('k') => self.bookmark_cursor_moved(false),
            Key::Down => self.bookmark_cursor_moved(true),
            Key::Char('j') => self.bookmark_cursor_moved(true),
            Key::Esc => (AppView { input_mode: InputMode::Normal, ..self }).unchanged(),
            _ => self.unchanged(),
        }
    }
}

fn copy_bookmarks(list: &Vec<BookmarkEntry>) -> (copy: Vec<BookmarkEntry>)
    ensures
        copy@.map_values(|entry: BookmarkEntry| entry@) == list@.map_values(
            |entry: BookmarkEntry| entry@,
        ),
{
    let mut copy: Vec<BookmarkEntry> = Vec::new();
    let mut i: usize = 0;
    while i < list.len()
        invariant
            i <= list.len(),
            copy@.len() == i,
            forall|k: int| 0 <= k < i ==> (#[trigger] copy@[k])@ == list@[k]@,
        decreases list.len() - i,
    {
        copy.push(list[i].clone());
        i = i + 1;
    }
    assert(copy@.map_values(|entry: BookmarkEntry| entry@) =~= list@.map_values(
        |entry: BookmarkEntry| entry@,
    ));
    copy
}

impl App {
    /// The key of the file that is played.
    pub fn playing_key(&self) -> (key: Option<String>)
        ensures
            crate::storage::optional_text(key) == self@.playing_key(),
    {
        match self.player.current_file() {
            Some(track) => Some(
                if self.config.memory_on_move {
                    track.media_key.clone()
                } else {
                    track.canonical_key.clone()
                },
            ),
            None => None,
        }
    }

    /// The bookmarks of the file that is played.
    pub fn current_bookmarks(&self) -> (list: BookmarkList)
        ensures
            list@ == self@.current_bookmarks(),
    {
        if let Some(key) = self.playing_key() {
            if let Some(list) = self.bookmark_store.files.get(key.as_str()) {
                return BookmarkList { entries: copy_bookmarks(&list.entries) };
            }
        }
        let list = BookmarkList { entries: Vec::new() };
        assert(list@ =~= seq![]);
        list
    }

    /// Asks for the label of a bookmark where playback is.
    pub fn begin_bookmark(&mut self, output: &Output) -> (actions: Vec<Action>)
        ensures
            old(self)@.bookmark_asked(output.position@) == (Step {
                app: final(self)@,
                actions: app::action_views(actions@),
            }),
    {
        if self.player.current_file().is_none() {
            self.status = "Nothing is playing.".to_owned();
            return app::nothing();
        }
        self.bookmark_place = self.player.current_position(output);
        self.input_mode = InputMode::BookmarkLabel;
        self.editor = LineEditor::empty();
        self.status = "".to_owned();
        app::nothing()
    }

    /// Makes a bookmark.
    pub fn add_bookmark(&mut self, epoch: u64) -> (actions: Vec<Action>)
        ensures
            old(self)@.bookmark_made(epoch) == (Step {
                app: final(self)@,
                actions: app::action_views(actions@),
            }),
    {
        self.input_mode = InputMode::Normal;
        let key = match self.playing_key() {
            Some(key) => key,
            None => {
                self.status = "Nothing is playing.".to_owned();
                return app::nothing();
            },
        };
        let place = self.bookmark_place;
        let trimmed = text::trim_chars(self.editor.chars());
        let label = if trimmed.len() == 0 {
            ui::format_duration(place)
        } else {
            text::string_of(&trimmed)
        };
        let mut id = text::decimal_text(epoch);
        id.append("-");
        text::push_decimal(&mut id, place.as_secs());
        let entry = BookmarkEntry {
            id,
            position: place,
            label: label.clone(),
            created_at_epoch_seconds: epoch,
        };
        let ghost made = entry@;
        assert(made == new_bookmark(place@, self.editor@.line, epoch));
        let mut list = self.current_bookmarks();
        let ghost before = list@;
        list.entries.push(entry);
        assert(list@ =~= before.push(made));
        self.bookmark_store.files.insert(key, list);
        self.status = text::concat2("Bookmarked ", label.as_str());
        app::one(Action::SaveBookmarkStore)
    }

    /// Shows the bookmarks.
    pub fn open_bookmarks(&mut self) -> (actions: Vec<Action>)
        ensures
            old(self)@.bookmarks_opened() == (Step {
                app: final(self)@,
                actions: app::action_views(actions@),
            }),
    {
        if self.player.current_file().is_none() {
            self.status = "Nothing is playing.".to_owned();
            return app::nothing();
        }
        let list = self.current_bookmarks();
        assert(list@.len() == list.entries@.len());
        if list.entries.len() == 0 {
            self.status = "No bookmarks for this file.".to_owned();
            return app::nothing();
        }
        self.input_mode = InputMode::Bookmarks;
        self.bookmark_cursor = 0;
        self.status = "".to_owned();
        app::nothing()
    }

    /// Goes to the chosen bookmark.
    pub fn jump_to_bookmark(&mut self, output: &Output) -> (actions: Vec<Action>)
        ensures
            old(self)@.bookmark_chosen(output.position@) == (Step {
                app: final(self)@,
                actions: app::action_views(actions@),
            }),
    {
        let list = self.current_bookmarks();
        assert(list@.len() == list.entries@.len());
        self.input_mode = InputMode::Normal;
        if self.bookmark_cursor < list.entries.len() {
            let chosen = &list.entries[self.bookmark_cursor];
            assert(list@[self.bookmark_cursor as int] == chosen@);
            let command = self.player.seek_to(chosen.position);
            let actions = self.commit_seek(command, output);
            self.status = text::concat2("Jumped to ", chosen.label.as_str());
            return actions;
        }
        app::nothing()
    }

    /// Deletes the chosen bookmark.
    pub fn delete_bookmark(&mut self) -> (actions: Vec<Action>)
        ensures
            old(self)@.bookmark_deleted() == (Step {
                app: final(self)@,
                actions: app::action_views(actions@),
            }),
    {
        let key = match self.playing_key() {
            Some(key) => key,
            None => {
                return app::nothing();
            },
        };
        let mut list = self.current_bookmarks();
        let ghost before = list@;
        assert(list@.len() == list.entries@.len());
        if self.bookmark_cursor >= list.entries.len() {
            return app::nothing();
        }
        let ghost at = self.bookmark_cursor as int;
        let deleted = list.entries.remove(self.bookmark_cursor);
        assert(before[at] == deleted@);
        assert(list@ =~= before.remove(at));
        let left: usize = list.entries.len();
        if self.bookmark_cursor >= left {
            self.bookmark_cursor = if left > 0 {
                left - 1
            } else {
                0
            };
        }
        if left == 0 {
            self.input_mode = InputMode::Normal;
        }
        self.bookmark_store.files.insert(key, list);
        self.status = text::concat2("Deleted ", deleted.label.as_str());
        app::one(Action::SaveBookmarkStore)
    }

    /// Chooses the next bookmark, or the one before.
    pub fn move_bookmark_cursor(&mut self, down: bool) -> (actions: Vec<Action>)
        ensures
            old(self)@.bookmark_cursor_moved(down) == (Step {
                app: final(self)@,
                actions: app::action_views(actions@),
            }),
    {
        let list = self.current_bookmarks();
        assert(list@.len() == list.entries@.len());
        let count: usize = list.entries.len();
        if down {
            if count > 0 && self.bookmark_cursor < count - 1 {
                self.bookmark_cursor = self.bookmark_cursor + 1;
            }
        } else if self.bookmark_cursor > 0 {
            self.bookmark_cursor = self.bookmark_cursor - 1;
        }
        app::nothing()
    }

    /// What a key does in the dialog for a bookmark's label.
    pub fn handle_bookmark_label_mode(&mut self, press: KeyPress, epoch: u64) -> (actions: Vec<
        Action,
    >)
        ensures
            old(self)@.bookmark_label_key(press, epoch) == (Step {
                app: final(self)@,
                actions: app::action_views(actions@),
            }),
    {
        if let Some(editor) = self.editor.handle_shared_input_key(press) {
            self.editor = editor;
            return app::nothing();
        }
        match press.key {
            Key::Esc => {
                self.input_mode = InputMode::Normal;
                self.status = "Bookmark entry canceled.".to_owned();
                app::nothing()
            },
            Key::Enter => self.add_bookmark(epoch),
            _ => app::nothing(),
        }
    }

    /// What a key does in the list of bookmarks.
    pub fn handle_bookmarks_mode(&mut self, key: Key, output: &Output) -> (actions: Vec<Action>)
        ensures
            old(self)@.bookmarks_key(key, output.position@) == (Step {
                app: final(self)@,
                actions: app::action_views(actions@),
            }),
    {
        match key {
            Key::Enter => self.jump_to_bookmark(output),
            Key::Char('d') => self.delete_bookmark(),
            Key::Up => self.move_bookmark_cursor(false),
            Key::Char('k') => self.move_bookmark_cursor(false),
            Key::Down => self.move_bookmark_cursor(true),
            Key::Char('j') => self.move_bookmark_cursor(true),
            Key::Esc => {
                self.input_mode = InputMode::Normal;
                app::nothing()
            },
            _ => app::nothing(),
        }
    }
}

/// A bookmark leads to where it was made, as long as that is not beyond the end of the file.
pub proof fn law_bookmark_leads_back(
    app: AppView,
    typed: EditorView,
    reported: nat,
    epoch: u64,
    later: nat,
)
    requires
        app.player.file is Some,
        app.player.duration matches Some(end) ==> reported <= end,
    ensures
        ({
            let asked = app.bookmark_asked(reported).app;
            let made = (AppView { editor: typed, ..asked }).bookmark_made(epoch).app;
            let count = app.current_bookmarks().len() as int;
            let opened = AppView { bookmark_cursor: count, ..made.bookmarks_opened().app };
            let jump = opened.bookmark_chosen(later);
            &&& made.current_bookmarks().len() == count + 1
            &&& made.bookmarks_opened().app.input_mode == InputMode::Bookmarks
            &&& jump.actions == seq![
                ActionView::Device(CommandView::Seek(reported)),
                ActionView::PersistResume,
            ]
        }),
{
}

/// Deleting the bookmark made last leaves the others as they were.
pub proof fn law_deleting_undoes_making(app: AppView, epoch: u64)
    requires
        app.player.file is Some,
    ensures
        ({
            let made = app.bookmark_made(epoch).app;
            let last = AppView {
                bookmark_cursor: app.current_bookmarks().len() as int,
                ..made
            };
            last.bookmark_deleted().app.current_bookmarks() == app.current_bookmarks()
        }),
{
    let made = app.bookmark_made(epoch).app;
    let last = AppView { bookmark_cursor: app.current_bookmarks().len() as int, ..made };
    assert(last.bookmark_deleted().app.current_bookmarks() =~= app.current_bookmarks());
}

/// Bookmarks of one file have nothing to do with those of others.
pub proof fn law_other_bookmarks_stay(app: AppView, epoch: u64, key: Seq<char>)
    requires
        app.playing_key() != Some(key),
    ensures
        app.bookmark_made(epoch).app.bookmarks_under(key) == app.bookmarks_under(key),
        app.bookmark_deleted().app.bookmarks_under(key) == app.bookmarks_under(key),
{
}

}
