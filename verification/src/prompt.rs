//! The state of the prompt and how each command changes it. The host reads
//! the keys, the directories and the terminal; what to do with them is
//! decided here.
use crate::listing::{
    is_listable, list, subfolder_names, DirectoryChild, DirectoryListing, ListingView,
};
use crate::order::is_ordered;
use crate::path::{
    directory_part, ends_with_separator, get_last_input, get_path_from_input, is_valid_path,
    partial_part, SEPARATOR,
};
use crate::suggest::{get_guess, guess_when, suggestion};
use crate::text::{pop_char, push_char};
use vstd::prelude::*;

verus! {

/// What the user asks of the prompt with one key.
#[derive(Clone, Copy, Debug)]
pub enum Command {
    /// Type a character.
    InsertChar(char),
    /// Take back the last character.
    Backspace,
    /// Move on to the next subfolder.
    CycleNext,
    /// Move back to the subfolder before.
    CyclePrev,
    /// Take the suggestion into the text.
    Accept,
    /// Open the directory that the text names.
    Submit,
    /// Leave the prompt.
    Quit,
}

/// What the host has to do once a command has been applied.
#[derive(Clone, Copy, Debug, PartialEq, Eq, Structural)]
pub enum Effect {
    /// Show the prompt again.
    Redraw,
    /// Open the directory that the text names, if it is a valid path, and
    /// show the prompt again.
    Open,
    /// Stop.
    Quit,
}

/// What a prompt holds.
pub struct PromptView {
    pub buffer: Seq<char>,
    pub offset: int,
    pub listing: ListingView,
    pub guess: Seq<char>,
}

/// The text after `command`, where `guess` is the suggestion on display. A
/// space is typed as a backslash and a space; a suggestion is taken with a
/// separator behind it, and an empty one is not taken.
pub open spec fn edited(buffer: Seq<char>, guess: Seq<char>, command: Command) -> Seq<char> {
    match command {
        Command::InsertChar(c) => if c == ' ' {
            buffer.push('\\').push(' ')
        } else {
            buffer.push(c)
        },
        Command::Backspace => if buffer.len() > 0 {
            buffer.drop_last()
        } else {
            buffer
        },
        Command::Accept => if guess.len() > 0 {
            (buffer + guess).push(SEPARATOR)
        } else {
            buffer
        },
        _ => buffer,
    }
}

/// The offset after `command`, where the directory stays the same and no
/// suggestion is taken.
pub open spec fn cycled(offset: int, command: Command) -> int {
    match command {
        Command::CycleNext => offset + 1,
        Command::CyclePrev => offset - 1,
        _ => offset,
    }
}

/// The prompt after `command`. The offset starts again at 0 when a
/// suggestion is taken or the text comes to name another directory. The
/// listing stays, and the suggestion is withdrawn until it is worked out again.
pub open spec fn step(state: PromptView, command: Command) -> PromptView {
    let buffer = edited(state.buffer, state.guess, command);
    let taken = command is Accept && state.guess.len() > 0;
    PromptView {
        buffer,
        offset: if taken || directory_part(buffer) != directory_part(state.buffer) {
            0
        } else {
            cycled(state.offset, command)
        },
        listing: state.listing,
        guess: Seq::empty(),
    }
}

/// What the host has to do after `command`.
pub open spec fn effect_of(command: Command) -> Effect {
    match command {
        Command::Submit => Effect::Open,
        Command::Quit => Effect::Quit,
        _ => Effect::Redraw,
    }
}

/// Whether the listing that the prompt holds is of another directory than
/// the one its text names.
pub open spec fn is_stale(state: PromptView) -> bool {
    directory_part(state.buffer) != state.listing.path
}

/// The suggestion that the prompt's listing holds for its text, where the
/// listing is of the directory that the text names; nothing where it is not.
pub open spec fn fresh_guess(state: PromptView) -> Seq<char> {
    if is_stale(state) {
        Seq::empty()
    } else {
        suggestion(state.listing.names, partial_part(state.buffer), state.offset)
    }
}

/// The prompt after each of `commands` in turn.
pub open spec fn run(state: PromptView, commands: Seq<Command>) -> PromptView
    decreases commands.len(),
{
    if commands.len() == 0 {
        state
    } else {
        step(run(state, commands.drop_last()), commands.last())
    }
}

/// Commands leave the listing as it is.
pub proof fn lemma_commands_keep_listing(state: PromptView, commands: Seq<Command>)
    ensures
        run(state, commands).listing == state.listing,
    decreases commands.len(),
{
    if commands.len() > 0 {
        lemma_commands_keep_listing(state, commands.drop_last());
    }
}

/// A directory is read once. Where the prompt holds the listing of the
/// directory that its text names, and after some commands the text names
/// that directory again, the listing is still in place and nothing is to
/// be read.
pub proof fn lemma_same_directory_read_once(state: PromptView, commands: Seq<Command>)
    requires
        !is_stale(state),
        directory_part(run(state, commands).buffer) == directory_part(state.buffer),
    ensures
        !is_stale(run(state, commands)),
{
    lemma_commands_keep_listing(state, commands);
}

/// Cycling changes nothing but the offset, which it moves by one, and the
/// suggestion, which it withdraws.
pub proof fn lemma_cycling_moves_offset(state: PromptView)
    ensures
        step(state, Command::CycleNext) == (PromptView {
            offset: state.offset + 1,
            guess: Seq::empty(),
            ..state
        }),
        step(state, Command::CyclePrev) == (PromptView {
            offset: state.offset - 1,
            guess: Seq::empty(),
            ..state
        }),
{
}

/// Taking a suggestion makes the whole text the directory it names and
/// starts the offset again at 0.
pub proof fn lemma_accept_enters_directory(state: PromptView)
    requires
        state.guess.len() > 0,
    ensures
        directory_part(step(state, Command::Accept).buffer) == state.buffer + state.guess
            + seq![SEPARATOR],
        partial_part(step(state, Command::Accept).buffer) == Seq::<char>::empty(),
        step(state, Command::Accept).offset == 0,
{
    let after = step(state, Command::Accept).buffer;
    assert(after =~= state.buffer + state.guess + seq![SEPARATOR]);
    assert(after.last() == SEPARATOR);
    assert(after.take(after.len() as int) == after);
    assert(after.skip(after.len() as int) =~= Seq::<char>::empty());
}

/// The prompt: the text typed so far, the cycling offset, the listing of the
/// directory last read, and the suggestion on display.
pub struct PromptState {
    buffer: String,
    offset: i64,
    listing: DirectoryListing,
    guess: String,
}

impl View for PromptState {
    type V = PromptView;

    closed spec fn view(&self) -> PromptView {
        PromptView {
            buffer: self.buffer@,
            offset: self.offset as int,
            listing: self.listing@,
            guess: self.guess@,
        }
    }
}

/// What the renderer shows: the label, the text, the suggestion behind it,
/// and the column of the cursor.
#[derive(Clone, Debug)]
pub struct Frame {
    pub label: String,
    pub buffer: String,
    pub suggestion: String,
    pub cursor_column: usize,
}

impl PromptState {
    /// An empty prompt: no text, offset 0, no listing, no suggestion.
    pub fn new() -> (state: Self)
        ensures
            state@.buffer == Seq::<char>::empty(),
            state@.offset == 0,
            state@.listing.path == Seq::<char>::empty(),
            state@.listing.names == Seq::<Seq<char>>::empty(),
            state@.guess == Seq::<char>::empty(),
    {
        PromptState {
            buffer: String::new(),
            offset: 0,
            listing: DirectoryListing::empty(),
            guess: String::new(),
        }
    }

    /// The text typed so far.
    pub fn buffer(&self) -> (buffer: &String)
        ensures
            buffer@ == self@.buffer,
    {
        &self.buffer
    }

    /// The cycling offset.
    pub fn offset(&self) -> (offset: i64)
        ensures
            offset == self@.offset,
    {
        self.offset
    }

    /// The listing of the directory last read.
    pub fn listing(&self) -> (listing: &DirectoryListing)
        ensures
            listing@ == self@.listing,
    {
        &self.listing
    }

    /// The suggestion on display.
    pub fn guess(&self) -> (guess: &String)
        ensures
            guess@ == self@.guess,
    {
        &self.guess
    }

    /// Applies `command` to the prompt and says what the host has to do.
    /// The offset is not held within the listing: it moves by one with each
    /// cycling command, as far as its type has room.
    pub fn apply(&mut self, command: Command) -> (effect: Effect)
        requires
            command is CycleNext ==> old(self)@.offset < i64::MAX,
            command is CyclePrev ==> old(self)@.offset > i64::MIN,
        ensures
            final(self)@ == step(old(self)@, command),
            effect == effect_of(command),
    {
        let directory_before = get_path_from_input(self.buffer.as_str()).to_owned();
        let mut taken = false;
        let effect = match command {
            Command::InsertChar(c) => {
                if c == ' ' {
                    push_char(&mut self.buffer, '\\');
                }
                push_char(&mut self.buffer, c);
                Effect::Redraw
            },
            Command::Backspace => {
                pop_char(&mut self.buffer);
                Effect::Redraw
            },
            Command::CycleNext => {
                self.offset = self.offset + 1;
                Effect::Redraw
            },
            Command::CyclePrev => {
                self.offset = self.offset - 1;
                Effect::Redraw
            },
            Command::Accept => {
                if !self.guess.as_str().is_empty() {
                    self.buffer.append(self.guess.as_str());
                    push_char(&mut self.buffer, SEPARATOR);
                    taken = true;
                }
                Effect::Redraw
            },
            Command::Submit => Effect::Open,
            Command::Quit => Effect::Quit,
        };
        let directory_after = get_path_from_input(self.buffer.as_str()).to_owned();
        if taken || directory_after != directory_before {
            self.offset = 0;
        }
        self.guess = String::new();
        effect
    }

    /// Whether the listing is of another directory than the one that the
    /// text names, so that it cannot serve.
    pub fn awaits_listing(&self) -> (stale: bool)
        ensures
            stale == is_stale(self@),
    {
        let directory = get_path_from_input(self.buffer.as_str()).to_owned();
        directory != *self.listing.path()
    }

    /// The directory that the host has to read now, if any, where
    /// `directory_valid` says whether the directory that the text names is a
    /// valid path: that directory, where the listing is of another and it
    /// is valid.
    pub fn directory_to_read_when(&self, directory_valid: bool) -> (directory: Option<String>)
        ensures
            directory is Some == (is_stale(self@) && directory_valid),
            directory matches Some(path) ==> path@ == directory_part(self@.buffer),
    {
        if directory_valid && self.awaits_listing() {
            Some(get_path_from_input(self.buffer.as_str()).to_owned())
        } else {
            None
        }
    }

    /// The directory that the host has to read now, if any: the one that the
    /// text names, where the listing is of another and the path is valid when
    /// the call is made. While the text names the directory of the listing,
    /// nothing is read again.
    pub fn directory_to_read(&self) -> (directory: Option<String>)
        ensures
            directory matches Some(path) ==> path@ == directory_part(self@.buffer) && is_stale(
                self@,
            ) && ends_with_separator(path@),
            !is_stale(self@) ==> directory is None,
    {
        let directory = get_path_from_input(self.buffer.as_str());
        let valid = self.awaits_listing() && is_valid_path(directory);
        self.directory_to_read_when(valid)
    }

    /// The directory to open when the user submits, where `valid` says
    /// whether the text is a valid path: the whole text where it is, nothing
    /// where it is not.
    pub fn submission_when(&self, valid: bool) -> (target: Option<String>)
        ensures
            target is Some == valid,
            target matches Some(path) ==> path@ == self@.buffer,
    {
        if valid {
            Some(self.buffer.clone())
        } else {
            None
        }
    }

    /// The directory to open when the user submits: the whole text, where it
    /// is a valid path when the call is made.
    pub fn submission(&self) -> (target: Option<String>)
        ensures
            target matches Some(path) ==> path@ == self@.buffer && ends_with_separator(path@),
            !ends_with_separator(self@.buffer) ==> target is None,
    {
        self.submission_when(is_valid_path(self.buffer.as_str()))
    }

    /// Takes in what the host read of the directory that the text names:
    /// `contents` holds its children, or `None` where it could not be read.
    /// The prompt then holds the listing of that directory, and nothing is
    /// to be read until the text names another.
    pub fn install_listing(&mut self, contents: Option<&Vec<DirectoryChild>>)
        ensures
            final(self)@ == (PromptView { listing: final(self)@.listing, ..old(self)@ }),
            final(self)@.listing.path == directory_part(old(self)@.buffer),
            is_ordered(final(self)@.listing.names),
            is_listable(directory_part(old(self)@.buffer), contents)
                ==> final(self)@.listing.names.to_multiset()
                    == subfolder_names(contents.unwrap()@).to_multiset(),
            !is_listable(directory_part(old(self)@.buffer), contents)
                ==> final(self)@.listing.names == Seq::<Seq<char>>::empty(),
            !is_stale(final(self)@),
    {
        self.listing = list(get_path_from_input(self.buffer.as_str()), contents);
    }

    /// Works out the suggestion again, where `directory_valid` says whether
    /// the directory that the text names is there.
    pub fn refresh_guess_when(&mut self, directory_valid: bool)
        ensures
            final(self)@ == (PromptView {
                guess: if directory_valid {
                    fresh_guess(old(self)@)
                } else {
                    Seq::empty()
                },
                ..old(self)@
            }),
    {
        if self.awaits_listing() {
            self.guess = String::new();
        } else {
            let last_input = get_last_input(self.buffer.as_str());
            self.guess = guess_when(
                directory_valid,
                last_input,
                self.listing.ordered_names(),
                self.offset,
            );
        }
    }

    /// Works out the suggestion again: the one that the listing holds for the
    /// text, or nothing where the listing is of another directory or the
    /// directory is not there when the call is made.
    pub fn refresh_guess(&mut self)
        ensures
            final(self)@.guess == fresh_guess(old(self)@) || final(self)@.guess == Seq::<
                char,
            >::empty(),
            is_stale(old(self)@) ==> final(self)@.guess == Seq::<char>::empty(),
            final(self)@ == (PromptView { guess: final(self)@.guess, ..old(self)@ }),
    {
        if self.awaits_listing() {
            self.guess = String::new();
        } else {
            self.guess = get_guess(
                get_path_from_input(self.buffer.as_str()),
                get_last_input(self.buffer.as_str()),
                self.listing.ordered_names(),
                self.offset,
            );
        }
    }

    /// What the renderer has to show under `label`. The cursor stands one
    /// column behind the label and the text.
    pub fn frame(&self, label: &str) -> (frame: Frame)
        requires
            label@.len() + self@.buffer.len() < usize::MAX,
        ensures
            frame.label@ == label@,
            frame.buffer@ == self@.buffer,
            frame.suggestion@ == self@.guess,
            frame.cursor_column == label@.len() + self@.buffer.len() + 1,
    {
        Frame {
            label: label.to_owned(),
            buffer: self.buffer.clone(),
            suggestion: self.guess.clone(),
            cursor_column: label.unicode_len() + self.buffer.as_str().unicode_len() + 1,
        }
    }
}

} // verus!
