//! The state of the terminal front end and how keys and ticks change it.

use crate::model::types::Delta;
use crate::ui::event::Key;
use crate::ui::input::InputMode;
use vstd::prelude::*;

verus! {

/// What the front end shows: the input line, its mode, and the deltas received so far.
pub struct App {
    pub input: String,
    pub input_mode: InputMode,
    pub tbox_messages: Vec<Delta>,
    pub abox_messages: Vec<Delta>,
}

/// What a key asks the caller to do.
pub enum Outcome {
    /// Nothing.
    Continue,
    /// Send the termination signal and leave.
    Quit,
    /// Load the file of this name into the terminology box.
    LoadTbox(String),
    /// Load the file of this name into the assertion box.
    LoadAbox(String),
}

impl Default for App {
    /// An empty input line in normal mode, and no deltas.
    fn default() -> (app: App)
        ensures
            app.input@ == Seq::<char>::empty(),
            app.input_mode == InputMode::Normal,
            app.tbox_messages@ == Seq::<Delta>::empty(),
            app.abox_messages@ == Seq::<Delta>::empty(),
    {
        App {
            input: String::new(),
            input_mode: InputMode::Normal,
            tbox_messages: Vec::new(),
            abox_messages: Vec::new(),
        }
    }
}

/// Appends `c` to `s`. This is `String::push` of std.
#[verifier::external_body]
fn push_char(s: &mut String, c: char)
    ensures
        final(s)@ == old(s)@.push(c),
{
    s.push(c)
}

/// Removes the last character of `s`, if it has one. This is `String::pop`
/// of std, whose result is dropped.
#[verifier::external_body]
fn pop_char(s: &mut String)
    ensures
        final(s)@ == if old(s)@.len() == 0 {
            old(s)@
        } else {
            old(s)@.drop_last()
        },
{
    s.pop();
}

impl App {
    /// The input line after a key, seen from the mode it was pressed in.
    pub open spec fn input_after(&self, key: Key) -> Seq<char> {
        match self.input_mode {
            InputMode::Normal => self.input@,
            _ => match key {
                Key::Enter => Seq::empty(),
                Key::Char(c) => self.input@.push(c),
                Key::Backspace => if self.input@.len() == 0 {
                    self.input@
                } else {
                    self.input@.drop_last()
                },
                _ => self.input@,
            },
        }
    }

    /// The mode after a key.
    pub open spec fn mode_after(&self, key: Key) -> InputMode {
        match self.input_mode {
            InputMode::Normal => match key {
                Key::Char(c) => if c == 't' {
                    InputMode::TBOX
                } else if c == 'a' {
                    InputMode::ABOX
                } else {
                    InputMode::Normal
                },
                _ => InputMode::Normal,
            },
            mode => match key {
                Key::Esc => InputMode::Normal,
                _ => mode,
            },
        }
    }

    /// Takes a key. In normal mode `t` and `a` open the input line for a
    /// file of the terminology box or of the assertion box, and `q` quits.
    /// While the input line is open, characters go to its end, backspace
    /// takes the last one away, enter asks to load the file it names and
    /// clears it, and escape closes it.
    pub fn on_key(&mut self, key: Key) -> (outcome: Outcome)
        ensures
            final(self).input@ == old(self).input_after(key),
            final(self).input_mode == old(self).mode_after(key),
            final(self).tbox_messages == old(self).tbox_messages,
            final(self).abox_messages == old(self).abox_messages,
            match outcome {
                Outcome::Quit => old(self).input_mode == InputMode::Normal && key == Key::Char('q'),
                Outcome::LoadTbox(name) => old(self).input_mode == InputMode::TBOX && key
                    == Key::Enter && name@ == old(self).input@,
                Outcome::LoadAbox(name) => old(self).input_mode == InputMode::ABOX && key
                    == Key::Enter && name@ == old(self).input@,
                Outcome::Continue => !(old(self).input_mode == InputMode::Normal && key
                    == Key::Char('q')) && !(old(self).input_mode != InputMode::Normal && key
                    == Key::Enter),
            },
    {
        match self.input_mode {
            InputMode::Normal => match key {
                Key::Char(c) => {
                    if c == 't' {
                        self.input_mode = InputMode::TBOX;
                        Outcome::Continue
                    } else if c == 'a' {
                        self.input_mode = InputMode::ABOX;
                        Outcome::Continue
                    } else if c == 'q' {
                        Outcome::Quit
                    } else {
                        Outcome::Continue
                    }
                },
                _ => Outcome::Continue,
            },
            mode => match key {
                Key::Enter => {
                    let name = self.input.clone();
                    self.input = String::new();
                    match mode {
                        InputMode::TBOX => Outcome::LoadTbox(name),
                        _ => Outcome::LoadAbox(name),
                    }
                },
                Key::Char(c) => {
                    push_char(&mut self.input, c);
                    Outcome::Continue
                },
                Key::Backspace => {
                    pop_char(&mut self.input);
                    Outcome::Continue
                },
                Key::Esc => {
                    self.input_mode = InputMode::Normal;
                    Outcome::Continue
                },
                Key::Other => Outcome::Continue,
            },
        }
    }

    /// Takes what arrived since the last tick: the deltas go to the end of the two lists.
    pub fn on_tick(&mut self, tbox: &Vec<Delta>, abox: &Vec<Delta>)
        ensures
            final(self).tbox_messages@ == old(self).tbox_messages@ + tbox@,
            final(self).abox_messages@ == old(self).abox_messages@ + abox@,
            final(self).input == old(self).input,
            final(self).input_mode == old(self).input_mode,
    {
        let ghost t0 = self.tbox_messages@;
        let ghost a0 = self.abox_messages@;
        let mut i: usize = 0;
        while i < tbox.len()
            invariant
                i <= tbox.len(),
                self.tbox_messages@ == t0 + tbox@.take(i as int),
                self.abox_messages@ == a0,
                self.input == old(self).input,
                self.input_mode == old(self).input_mode,
            decreases tbox.len() - i,
        {
            self.tbox_messages.push(tbox[i]);
            i += 1;
            assert(self.tbox_messages@ =~= t0 + tbox@.take(i as int));
        }
        assert(tbox@.take(tbox@.len() as int) == tbox@);
        let mut j: usize = 0;
        while j < abox.len()
            invariant
                j <= abox.len(),
                self.tbox_messages@ == t0 + tbox@,
                self.abox_messages@ == a0 + abox@.take(j as int),
                self.input == old(self).input,
                self.input_mode == old(self).input_mode,
            decreases abox.len() - j,
        {
            self.abox_messages.push(abox[j]);
            j += 1;
            assert(self.abox_messages@ =~= a0 + abox@.take(j as int));
        }
        assert(abox@.take(abox@.len() as int) == abox@);
    }
}

} // verus!
