use crate::text::{
    chars_of, lemma_ws_tokens_len, lines_of, str_eq, string_of_range, text_lines, trim,
    trim_bounds, ws_token_strings, ws_tokens,
};
use vstd::prelude::*;

verus! {

broadcast use vstd::string::group_string_axioms;

/// Number of log lines the console shows.
pub const CONSOLE_MAX_LINES: usize = 12;

/// A key press or typed text sent to the console plugin.
#[derive(Debug, Clone)]
pub enum KeyEvent {
    Pressed(String),
    CharInput(String),
}

/// The in-game console: whether it is open, the line being typed, and the log.
#[derive(Debug)]
pub struct ConsoleState {
    pub opened: bool,
    pub input: Vec<char>,
    pub logs: Vec<String>,
}

/// A command typed in the console, for the host to run.
#[derive(Debug)]
pub struct ConsoleCommand {
    pub name: String,
    pub args: Vec<String>,
}

/// What handling an event gives: whether the console took the event, and
/// the command to run, if one was entered.
#[derive(Debug)]
pub struct InputOutcome {
    pub consumed: bool,
    pub command: Option<ConsoleCommand>,
}

/// The mathematical value of a console.
pub struct ConsoleView {
    pub opened: bool,
    pub input: Seq<char>,
    pub logs: Seq<Seq<char>>,
}

pub open spec fn strings_view(v: Seq<String>) -> Seq<Seq<char>> {
    v.map_values(|s: String| s@)
}

impl ConsoleState {
    pub open spec fn spec_view(&self) -> ConsoleView {
        ConsoleView { opened: self.opened, input: self.input@, logs: strings_view(self.logs@) }
    }

    /// A closed console with nothing typed and an empty log.
    pub fn new() -> (console: Self)
        ensures
            console.spec_view() == (ConsoleView {
                opened: false,
                input: Seq::empty(),
                logs: Seq::empty(),
            }),
    {
        let console = ConsoleState { opened: false, input: Vec::new(), logs: Vec::new() };
        assert(console.spec_view().logs =~= Seq::<Seq<char>>::empty());
        console
    }
}

/// The console after `event`, whether it took the event, and the command
/// entered (its first word, then the others), if any.
///
/// F1 opens or closes the console. While it is open it takes every event:
/// Enter logs `> ` and the trimmed line and hands the line on as a command,
/// unless it is blank; Backspace drops the last character typed; typed text
/// is appended. A closed console takes nothing else.
pub open spec fn spec_handle_input(c: ConsoleView, pressed: bool, key: Seq<char>) -> (ConsoleView, bool, Option<(Seq<char>, Seq<Seq<char>>)>) {
    if pressed {
        if key == "F1"@ {
            (ConsoleView { opened: !c.opened, ..c }, true, None)
        } else if c.opened {
            if key == "Enter"@ {
                let t = trim(c.input);
                if t.len() > 0 {
                    let words = ws_tokens(t);
                    (
                        ConsoleView { input: Seq::empty(), logs: c.logs.push("> "@ + t), ..c },
                        true,
                        Some((words[0], words.skip(1))),
                    )
                } else {
                    (c, true, None)
                }
            } else if key == "Backspace"@ {
                (
                    ConsoleView {
                        input: if c.input.len() > 0 {
                            c.input.drop_last()
                        } else {
                            c.input
                        },
                        ..c
                    },
                    true,
                    None,
                )
            } else {
                (c, true, None)
            }
        } else {
            (c, false, None)
        }
    } else {
        if c.opened {
            (ConsoleView { input: c.input + key, ..c }, true, None)
        } else {
            (c, false, None)
        }
    }
}

pub open spec fn event_view(event: KeyEvent) -> (bool, Seq<char>) {
    match event {
        KeyEvent::Pressed(k) => (true, k@),
        KeyEvent::CharInput(t) => (false, t@),
    }
}

pub open spec fn command_view(c: Option<ConsoleCommand>) -> Option<(Seq<char>, Seq<Seq<char>>)> {
    match c {
        Some(cmd) => Some((cmd.name@, strings_view(cmd.args@))),
        None => None,
    }
}

impl ConsoleState {
    /// Handles one key event (see `spec_handle_input`). The command, if any,
    /// is for the host to run; its answer goes to `accept_log`.
    pub fn handle_input(&mut self, event: KeyEvent) -> (outcome: InputOutcome)
        ensures
            ({
                let (pressed, key) = event_view(event);
                let (after, consumed, command) = spec_handle_input(old(self).spec_view(), pressed, key);
                &&& final(self).spec_view() == after
                &&& outcome.consumed == consumed
                &&& command_view(outcome.command) == command
            }),
    {
        match event {
            KeyEvent::Pressed(key) => {
                if str_eq(key.as_str(), "F1") {
                    self.opened = !self.opened;
                    return InputOutcome { consumed: true, command: None };
                }
                if self.opened {
                    if str_eq(key.as_str(), "Enter") {
                        let n = self.input.len();
                        assert(self.input@.subrange(0, n as int) =~= self.input@);
                        let (a, b) = trim_bounds(&self.input, 0, n);
                        if a < b {
                            let ghost t = self.input@.subrange(a as int, b as int);
                            let mut shown: Vec<char> = vec!['>', ' '];
                            let mut i = a;
                            proof {
                                reveal_strlit("> ");
                            }
                            assert(shown@ =~= "> "@ + self.input@.subrange(a as int, a as int));
                            while i < b
                                invariant
                                    a <= i <= b <= self.input@.len(),
                                    shown@ == "> "@ + self.input@.subrange(a as int, i as int),
                                decreases b - i,
                            {
                                proof {
                                    reveal_strlit("> ");
                                }
                                shown.push(self.input[i]);
                                assert(self.input@.subrange(a as int, i + 1) =~= self.input@.subrange(a as int, i as int).push(self.input@[i as int]));
                                assert(shown@ =~= "> "@ + self.input@.subrange(a as int, i + 1));
                                i = i + 1;
                            }
                            let line = string_of_range(&shown, 0, shown.len());
                            assert(shown@.subrange(0, shown@.len() as int) =~= shown@);
                            let mut words = ws_token_strings(&self.input, a, b);
                            proof {
                                lemma_ws_tokens_len(t);
                            }
                            let ghost words_view = strings_view(words@);
                            let rest = words.split_off(1);
                            let name = words.pop().unwrap();
                            proof {
                                assert(strings_view(rest@) =~= words_view.skip(1));
                            }
                            let ghost logs_before = strings_view(self.logs@);
                            self.logs.push(line);
                            assert(strings_view(self.logs@) =~= logs_before.push(line@));
                            self.input = Vec::new();
                            return InputOutcome {
                                consumed: true,
                                command: Some(ConsoleCommand { name, args: rest }),
                            };
                        }
                        return InputOutcome { consumed: true, command: None };
                    }
                    if str_eq(key.as_str(), "Backspace") {
                        self.input.pop();
                        return InputOutcome { consumed: true, command: None };
                    }
                    return InputOutcome { consumed: true, command: None };
                }
                InputOutcome { consumed: false, command: None }
            },
            KeyEvent::CharInput(text) => {
                if self.opened {
                    let chars = chars_of(text.as_str());
                    let mut i: usize = 0;
                    let ghost start = self.input@;
                    while i < chars.len()
                        invariant
                            i <= chars@.len(),
                            chars@ == text@,
                            self.input@ == start + chars@.take(i as int),
                            self.opened == old(self).opened,
                            self.logs == old(self).logs,
                        decreases chars@.len() - i,
                    {
                        self.input.push(chars[i]);
                        assert(start + chars@.take(i + 1) =~= (start + chars@.take(i as int)).push(chars@[i as int]));
                        i = i + 1;
                    }
                    assert(chars@.take(i as int) =~= chars@);
                    return InputOutcome { consumed: true, command: None };
                }
                InputOutcome { consumed: false, command: None }
            },
        }
    }

    /// Appends each line of `msg` to the log.
    pub fn accept_log(&mut self, msg: &str)
        ensures
            final(self).spec_view() == (ConsoleView {
                logs: old(self).spec_view().logs + text_lines(msg@),
                ..old(self).spec_view()
            }),
    {
        let lines = lines_of(msg);
        let mut i: usize = 0;
        let ghost start = strings_view(self.logs@);
        let ghost lv = lines@.map_values(|l: String| l@);
        while i < lines.len()
            invariant
                i <= lines@.len(),
                lv == lines@.map_values(|l: String| l@),
                lv == text_lines(msg@),
                strings_view(self.logs@) == start + lv.take(i as int),
                self.opened == old(self).opened,
                self.input == old(self).input,
            decreases lines@.len() - i,
        {
            let ghost before = strings_view(self.logs@);
            self.logs.push(lines[i].clone());
            assert(strings_view(self.logs@) =~= before.push(lines@[i as int]@));
            assert(start + lv.take(i + 1) =~= (start + lv.take(i as int)).push(lv[i as int]));
            i = i + 1;
        }
        assert(lv.take(i as int) =~= lv);
    }

    /// The last `CONSOLE_MAX_LINES` lines of the log, oldest first.
    pub fn display_logs(&self) -> (shown: Vec<String>)
        ensures
            strings_view(shown@) == if self.logs@.len() > CONSOLE_MAX_LINES {
                strings_view(self.logs@).skip(self.logs@.len() - CONSOLE_MAX_LINES)
            } else {
                strings_view(self.logs@)
            },
    {
        let n = self.logs.len();
        let start = if n > CONSOLE_MAX_LINES {
            n - CONSOLE_MAX_LINES
        } else {
            0
        };
        let mut shown: Vec<String> = Vec::new();
        let mut i = start;
        while i < n
            invariant
                start <= i <= n == self.logs@.len(),
                strings_view(shown@) == strings_view(self.logs@).subrange(start as int, i as int),
            decreases n - i,
        {
            let ghost before = strings_view(shown@);
            shown.push(self.logs[i].clone());
            assert(strings_view(shown@) =~= before.push(self.logs@[i as int]@));
            assert(strings_view(self.logs@).subrange(start as int, i + 1) =~= strings_view(
                self.logs@,
            ).subrange(start as int, i as int).push(self.logs@[i as int]@));
            i = i + 1;
        }
        assert(strings_view(self.logs@).subrange(start as int, n as int) =~= if n > CONSOLE_MAX_LINES {
            strings_view(self.logs@).skip(n - CONSOLE_MAX_LINES)
        } else {
            strings_view(self.logs@)
        });
        shown
    }

    /// The prompt line: `> ` then what is being typed.
    pub fn prompt_text(&self) -> (prompt: String)
        ensures
            prompt@ == "> "@ + self.input@,
    {
        let mut shown: Vec<char> = vec!['>', ' '];
        let mut i: usize = 0;
        proof {
            reveal_strlit("> ");
        }
        assert(shown@ =~= "> "@ + self.input@.take(0));
        while i < self.input.len()
            invariant
                i <= self.input@.len(),
                shown@ == "> "@ + self.input@.take(i as int),
            decreases self.input@.len() - i,
        {
            shown.push(self.input[i]);
            assert("> "@ + self.input@.take(i + 1) =~= ("> "@ + self.input@.take(i as int)).push(
                self.input@[i as int],
            ));
            i = i + 1;
        }
        assert(self.input@.take(i as int) =~= self.input@);
        string_of_range(&shown, 0, shown.len())
    }
}

} // verus!
