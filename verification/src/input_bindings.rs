use crate::text::{chars_of, range_eq_str};
use vstd::prelude::*;

verus! {

broadcast use vstd::string::group_string_axioms;

/// What the player asks of the engine.
#[derive(Debug, Clone, Copy, PartialEq, Eq, Structural)]
pub enum InputAction {
    ToggleConsole,
    Confirm,
    Delete,
    NavigateUp,
    NavigateDown,
    MoveForward,
    MoveBackward,
    MoveLeft,
    MoveRight,
    PrimaryAction,
    ScrollUp,
    ScrollDown,
}

/// Which part of the engine takes the input.
#[derive(Debug, Clone, Copy, PartialEq, Eq, Structural)]
pub enum EngineContext {
    Gameplay,
    UiConsole,
}

/// The keys that bindings may name.
#[derive(Debug, Clone, Copy, PartialEq, Eq, Structural)]
pub enum KeyName {
    F1,
    Enter,
    Backspace,
    Up,
    Down,
    Left,
    Right,
    W,
    A,
    S,
    D,
    Q,
    Z,
}

/// The mouse buttons that bindings may name.
#[derive(Debug, Clone, Copy, PartialEq, Eq, Structural)]
pub enum MouseName {
    Left,
    Right,
}

/// A key or a mouse button.
#[derive(Debug, Clone, Copy, PartialEq, Eq, Structural)]
pub enum InputTrigger {
    Key(KeyName),
    Mouse(MouseName),
}

/// The action that a binding file names `s`.
pub open spec fn spec_parse_action(s: Seq<char>) -> Option<InputAction> {
    if s == "ToggleConsole"@ {
        Some(InputAction::ToggleConsole)
    } else if s == "Confirm"@ {
        Some(InputAction::Confirm)
    } else if s == "Delete"@ {
        Some(InputAction::Delete)
    } else if s == "NavigateUp"@ {
        Some(InputAction::NavigateUp)
    } else if s == "NavigateDown"@ {
        Some(InputAction::NavigateDown)
    } else if s == "MoveForward"@ {
        Some(InputAction::MoveForward)
    } else if s == "MoveBackward"@ {
        Some(InputAction::MoveBackward)
    } else if s == "MoveLeft"@ {
        Some(InputAction::MoveLeft)
    } else if s == "MoveRight"@ {
        Some(InputAction::MoveRight)
    } else if s == "PrimaryAction"@ {
        Some(InputAction::PrimaryAction)
    } else {
        None
    }
}

/// The action named `s`, if any (names are case-sensitive).
pub fn parse_action(s: &str) -> (action: Option<InputAction>)
    ensures
        action == spec_parse_action(s@),
{
    let v = chars_of(s);
    let n = v.len();
    assert(v@.subrange(0, n as int) =~= s@);
    if range_eq_str(&v, 0, n, "ToggleConsole") {
        Some(InputAction::ToggleConsole)
    } else if range_eq_str(&v, 0, n, "Confirm") {
        Some(InputAction::Confirm)
    } else if range_eq_str(&v, 0, n, "Delete") {
        Some(InputAction::Delete)
    } else if range_eq_str(&v, 0, n, "NavigateUp") {
        Some(InputAction::NavigateUp)
    } else if range_eq_str(&v, 0, n, "NavigateDown") {
        Some(InputAction::NavigateDown)
    } else if range_eq_str(&v, 0, n, "MoveForward") {
        Some(InputAction::MoveForward)
    } else if range_eq_str(&v, 0, n, "MoveBackward") {
        Some(InputAction::MoveBackward)
    } else if range_eq_str(&v, 0, n, "MoveLeft") {
        Some(InputAction::MoveLeft)
    } else if range_eq_str(&v, 0, n, "MoveRight") {
        Some(InputAction::MoveRight)
    } else if range_eq_str(&v, 0, n, "PrimaryAction") {
        Some(InputAction::PrimaryAction)
    } else {
        None
    }
}

/// The upper-case form of `s` under the Unicode case mapping that
/// `str::to_uppercase` applies.
pub uninterp spec fn unicode_uppercase(s: Seq<char>) -> Seq<char>;

pub open spec fn is_ascii_text(s: Seq<char>) -> bool {
    forall|i: int| 0 <= i < s.len() ==> (#[trigger] s[i] as u32) < 128
}

/// ASCII letters `a` to `z` turned into `A` to `Z`, everything else kept.
pub open spec fn ascii_uppercase(s: Seq<char>) -> Seq<char> {
    Seq::new(
        s.len(),
        |i: int|
            if 'a' <= s[i] <= 'z' {
                ((s[i] as u32) - 32) as char
            } else {
                s[i]
            },
    )
}

/// `str::to_uppercase`. The contract names its result; on ASCII text, whose
/// case mapping is the ASCII one, it states that result.
#[verifier::external_body]
fn to_uppercase(s: &str) -> (upper: String)
    ensures
        upper@ == unicode_uppercase(s@),
        is_ascii_text(s@) ==> upper@ == ascii_uppercase(s@),
{
    s.to_uppercase()
}

/// The trigger that an upper-cased key name names.
pub open spec fn spec_trigger_of_upper(s: Seq<char>) -> Option<InputTrigger> {
    if s == "MOUSELEFT"@ {
        Some(InputTrigger::Mouse(MouseName::Left))
    } else if s == "MOUSERIGHT"@ {
        Some(InputTrigger::Mouse(MouseName::Right))
    } else if s == "F1"@ {
        Some(InputTrigger::Key(KeyName::F1))
    } else if s == "ENTER"@ {
        Some(InputTrigger::Key(KeyName::Enter))
    } else if s == "BACKSPACE"@ {
        Some(InputTrigger::Key(KeyName::Backspace))
    } else if s == "UP"@ {
        Some(InputTrigger::Key(KeyName::Up))
    } else if s == "DOWN"@ {
        Some(InputTrigger::Key(KeyName::Down))
    } else if s == "LEFT"@ {
        Some(InputTrigger::Key(KeyName::Left))
    } else if s == "RIGHT"@ {
        Some(InputTrigger::Key(KeyName::Right))
    } else if s == "W"@ {
        Some(InputTrigger::Key(KeyName::W))
    } else if s == "A"@ {
        Some(InputTrigger::Key(KeyName::A))
    } else if s == "S"@ {
        Some(InputTrigger::Key(KeyName::S))
    } else if s == "D"@ {
        Some(InputTrigger::Key(KeyName::D))
    } else if s == "Q"@ {
        Some(InputTrigger::Key(KeyName::Q))
    } else if s == "Z"@ {
        Some(InputTrigger::Key(KeyName::Z))
    } else {
        None
    }
}

/// The trigger that the already upper-cased key name `upper` names.
pub fn parse_trigger_upper(upper: &str) -> (trigger: Option<InputTrigger>)
    ensures
        trigger == spec_trigger_of_upper(upper@),
{
    let v = chars_of(upper);
    let n = v.len();
    assert(v@.subrange(0, n as int) =~= upper@);
    if range_eq_str(&v, 0, n, "MOUSELEFT") {
        Some(InputTrigger::Mouse(MouseName::Left))
    } else if range_eq_str(&v, 0, n, "MOUSERIGHT") {
        Some(InputTrigger::Mouse(MouseName::Right))
    } else if range_eq_str(&v, 0, n, "F1") {
        Some(InputTrigger::Key(KeyName::F1))
    } else if range_eq_str(&v, 0, n, "ENTER") {
        Some(InputTrigger::Key(KeyName::Enter))
    } else if range_eq_str(&v, 0, n, "BACKSPACE") {
        Some(InputTrigger::Key(KeyName::Backspace))
    } else if range_eq_str(&v, 0, n, "UP") {
        Some(InputTrigger::Key(KeyName::Up))
    } else if range_eq_str(&v, 0, n, "DOWN") {
        Some(InputTrigger::Key(KeyName::Down))
    } else if range_eq_str(&v, 0, n, "LEFT") {
        Some(InputTrigger::Key(KeyName::Left))
    } else if range_eq_str(&v, 0, n, "RIGHT") {
        Some(InputTrigger::Key(KeyName::Right))
    } else if range_eq_str(&v, 0, n, "W") {
        Some(InputTrigger::Key(KeyName::W))
    } else if range_eq_str(&v, 0, n, "A") {
        Some(InputTrigger::Key(KeyName::A))
    } else if range_eq_str(&v, 0, n, "S") {
        Some(InputTrigger::Key(KeyName::S))
    } else if range_eq_str(&v, 0, n, "D") {
        Some(InputTrigger::Key(KeyName::D))
    } else if range_eq_str(&v, 0, n, "Q") {
        Some(InputTrigger::Key(KeyName::Q))
    } else if range_eq_str(&v, 0, n, "Z") {
        Some(InputTrigger::Key(KeyName::Z))
    } else {
        None
    }
}

/// The trigger that key name `s` names, whatever its case.
pub fn parse_trigger(s: &str) -> (trigger: Option<InputTrigger>)
    ensures
        trigger == spec_trigger_of_upper(unicode_uppercase(s@)),
        is_ascii_text(s@) ==> trigger == spec_trigger_of_upper(ascii_uppercase(s@)),
{
    let upper = to_uppercase(s);
    parse_trigger_upper(upper.as_str())
}

/// The actions of the bindings whose trigger is active (`active[i]` for
/// `bindings[i]`), in the order of the bindings.
pub open spec fn spec_active_actions(
    bindings: Seq<(InputTrigger, InputAction)>,
    active: Seq<bool>,
) -> Seq<InputAction>
    decreases bindings.len(),
{
    if bindings.len() == 0 {
        Seq::empty()
    } else {
        let earlier = spec_active_actions(bindings.drop_last(), active);
        if active[bindings.len() - 1] {
            earlier.push(bindings.last().1)
        } else {
            earlier
        }
    }
}

/// Appends to `actions` the action of each binding whose trigger is active,
/// in the order of the bindings.
pub fn push_active_actions(
    bindings: &Vec<(InputTrigger, InputAction)>,
    active: &Vec<bool>,
    actions: &mut Vec<InputAction>,
)
    requires
        active@.len() == bindings@.len(),
    ensures
        final(actions)@ == old(actions)@ + spec_active_actions(bindings@, active@),
{
    let mut i: usize = 0;
    while i < bindings.len()
        invariant
            i <= bindings@.len() == active@.len(),
            actions@ == old(actions)@ + spec_active_actions(bindings@.take(i as int), active@),
        decreases bindings@.len() - i,
    {
        assert(bindings@.take(i + 1).drop_last() =~= bindings@.take(i as int));
        if active[i] {
            actions.push(bindings[i].1);
            assert(old(actions)@ + spec_active_actions(bindings@.take(i + 1), active@) =~= (
            old(actions)@ + spec_active_actions(bindings@.take(i as int), active@)).push(
                bindings@[i as int].1,
            ));
        } else {
            assert(spec_active_actions(bindings@.take(i + 1), active@) == spec_active_actions(
                bindings@.take(i as int),
                active@,
            ));
        }
        i = i + 1;
    }
    assert(bindings@.take(i as int) =~= bindings@);
}

/// Switches between gameplay and the console when `ToggleConsole` is among
/// `actions`.
pub fn handle_context_switching(actions: &Vec<InputAction>, context: &mut EngineContext)
    ensures
        actions@.contains(InputAction::ToggleConsole) ==> *final(context) == match *old(context) {
            EngineContext::Gameplay => EngineContext::UiConsole,
            EngineContext::UiConsole => EngineContext::Gameplay,
        },
        !actions@.contains(InputAction::ToggleConsole) ==> *final(context) == *old(context),
{
    let mut i: usize = 0;
    while i < actions.len()
        invariant
            i <= actions@.len(),
            *context == *old(context),
            forall|j: int| 0 <= j < i ==> actions@[j] != InputAction::ToggleConsole,
        decreases actions@.len() - i,
    {
        if actions[i] == InputAction::ToggleConsole {
            *context = match *context {
                EngineContext::Gameplay => EngineContext::UiConsole,
                EngineContext::UiConsole => EngineContext::Gameplay,
            };
            return;
        }
        i = i + 1;
    }
}

/// The bindings of one action name: one per key name that names a trigger,
/// in order; none if the action name is unknown.
pub open spec fn spec_entry_bindings(action: Seq<char>, keys: Seq<Seq<char>>) -> Seq<(InputTrigger, InputAction)>
    decreases keys.len(),
{
    match spec_parse_action(action) {
        None => Seq::empty(),
        Some(a) => if keys.len() == 0 {
            Seq::empty()
        } else {
            spec_entry_bindings(action, keys.drop_last()) + match spec_trigger_of_upper(
                unicode_uppercase(keys.last()),
            ) {
                Some(t) => seq![(t, a)],
                None => Seq::empty(),
            }
        },
    }
}

/// The bindings of `entries` (action name, key names), entry after entry.
pub open spec fn spec_compile_bindings(entries: Seq<(Seq<char>, Seq<Seq<char>>)>) -> Seq<(InputTrigger, InputAction)>
    decreases entries.len(),
{
    if entries.len() == 0 {
        Seq::empty()
    } else {
        spec_compile_bindings(entries.drop_last()) + spec_entry_bindings(
            entries.last().0,
            entries.last().1,
        )
    }
}

pub open spec fn entries_view(entries: Seq<(String, Vec<String>)>) -> Seq<(Seq<char>, Seq<Seq<char>>)> {
    entries.map_values(|e: (String, Vec<String>)| (e.0@, e.1@.map_values(|k: String| k@)))
}

/// The (trigger, action) pairs of a binding table, given as its entries in
/// the order in which the table is walked.
pub fn compile_bindings(entries: &Vec<(String, Vec<String>)>) -> (compiled: Vec<(InputTrigger, InputAction)>)
    ensures
        compiled@ == spec_compile_bindings(entries_view(entries@)),
{
    let ghost ev = entries_view(entries@);
    let mut compiled: Vec<(InputTrigger, InputAction)> = Vec::new();
    let mut i: usize = 0;
    assert(ev.take(0) =~= Seq::<(Seq<char>, Seq<Seq<char>>)>::empty());
    while i < entries.len()
        invariant
            i <= entries@.len(),
            ev == entries_view(entries@),
            compiled@ == spec_compile_bindings(ev.take(i as int)),
        decreases entries@.len() - i,
    {
        let (action_str, keys) = &entries[i];
        let ghost keys_view = keys@.map_values(|k: String| k@);
        assert(ev[i as int] == (action_str@, keys_view));
        assert(ev.take(i + 1).drop_last() =~= ev.take(i as int));
        let ghost before = compiled@;
        if let Some(action) = parse_action(action_str.as_str()) {
            let mut j: usize = 0;
            assert(keys_view.take(0) =~= Seq::<Seq<char>>::empty());
            while j < keys.len()
                invariant
                    j <= keys@.len(),
                    keys_view == keys@.map_values(|k: String| k@),
                    spec_parse_action(action_str@) == Some(action),
                    compiled@ == before + spec_entry_bindings(action_str@, keys_view.take(j as int)),
                decreases keys@.len() - j,
            {
                assert(keys_view.take(j + 1).drop_last() =~= keys_view.take(j as int));
                assert(keys_view.take(j + 1).last() == keys@[j as int]@);
                let ghost mid = compiled@;
                if let Some(trigger) = parse_trigger(keys[j].as_str()) {
                    compiled.push((trigger, action));
                    assert(compiled@ =~= mid + seq![(trigger, action)]);
                } else {
                    assert(compiled@ =~= mid + Seq::<(InputTrigger, InputAction)>::empty());
                }
                j = j + 1;
            }
            assert(keys_view.take(j as int) =~= keys_view);
        } else {
            assert(compiled@ =~= before + Seq::<(InputTrigger, InputAction)>::empty());
        }
        i = i + 1;
    }
    assert(ev.take(i as int) =~= ev);
    compiled
}

/// Char `c` is a control character (Unicode category Cc).
pub open spec fn is_control(c: char) -> bool {
    (c as u32) < 0x20 || (0x7f <= (c as u32) && (c as u32) <= 0x9f)
}

/// The typed characters `chars` without the control characters, in order.
pub open spec fn spec_printable(chars: Seq<char>) -> Seq<char> {
    chars.filter(|c: char| !is_control(c))
}

/// The text typed: the characters received, control characters left out.
pub fn collect_printable(chars: &Vec<char>) -> (raw: String)
    ensures
        raw@ == spec_printable(chars@),
{
    let mut kept: Vec<char> = Vec::new();
    let mut i: usize = 0;
    assert(chars@.take(0) =~= Seq::<char>::empty());
    while i < chars.len()
        invariant
            i <= chars@.len(),
            kept@ == spec_printable(chars@.take(i as int)),
        decreases chars@.len() - i,
    {
        let c = chars[i];
        let n = c as u32;
        proof {
            reveal_with_fuel(Seq::filter, 1);
            assert(chars@.take(i + 1).drop_last() =~= chars@.take(i as int));
        }
        if !(n < 0x20 || (0x7f <= n && n <= 0x9f)) {
            kept.push(c);
        }
        i = i + 1;
    }
    assert(chars@.take(i as int) =~= chars@);
    crate::text::string_of_range(&kept, 0, kept.len())
}

} // verus!
