//! Properties that span several operations of the library.
use crate::client::ClientState;
use crate::constants::MAX_PENDING_COMMANDS;
use crate::map::Tile;
use crate::resources::{all_empty, density_of, lemma_total_empty, min_nat, spec_resource_quantity, total_resource};
use crate::server_protocol::{handshake_step, hatch_step, line_step, valid_trace, ServerView};
use crate::team::Team;
use crate::map::Resource;
use vstd::prelude::*;

verus! {

/// No team has more clients than slots.
pub open spec fn teams_within_capacity(teams: Seq<Team>) -> bool {
    forall|i: int| 0 <= i < teams.len() ==> (#[trigger] teams[i]).connected <= teams[i].max_clients
}

/// The invariant that handling lines keeps: teams within capacity, and at
/// most `MAX_PENDING_COMMANDS` commands waiting.
pub open spec fn server_invariant(v: ServerView) -> bool {
    &&& teams_within_capacity(v.teams)
    &&& v.queue.len() <= MAX_PENDING_COMMANDS
}

/// One received line keeps every team within its capacity and the command
/// queue within its bound; an egg that hatches becomes a player, so eggs and
/// players together stay as many; a client that has introduced itself stays
/// what it became; and replies are only ever added.
pub proof fn law_line_step_invariants(
    line: Seq<char>,
    width: usize,
    height: usize,
    pre: ServerView,
    post: ServerView,
)
    requires
        line_step(line, width, height, pre, post),
        server_invariant(pre),
    ensures
        server_invariant(post),
        post.eggs.len() + post.players.len() == pre.eggs.len() + pre.players.len(),
        pre.state != ClientState::WaitingTeamName ==> post.state == pre.state,
        post.replies.len() >= pre.replies.len(),
        post.replies.take(pre.replies.len() as int) == pre.replies,
{
    if line.len() > 0 && pre.state == ClientState::WaitingTeamName {
        if line != crate::constants::GRAPHIC_TEAM_NAME@ {
            if let Some(ti) = crate::server_protocol::first_team_named(pre.teams, line) {
                crate::server_protocol::lemma_first_team_named_bounds(pre.teams, line);
                let team = pre.teams[ti];
                if !(team.connected >= team.max_clients || !crate::egg::has_team_egg(
                    pre.eggs,
                    team.name@,
                )) {
                    let e = choose|e: int| #[trigger] hatch_step(ti, e, width, height, pre, post);
                    assert forall|i: int| 0 <= i < post.teams.len() implies (
                    #[trigger] post.teams[i]).connected <= post.teams[i].max_clients by {
                        if i != ti {
                            assert(post.teams[i] == pre.teams[i]);
                        }
                    }
                    assert(post.players.drop_last().len() == pre.players.len());
                }
            }
        }
    }
    assert(post.replies.take(pre.replies.len() as int) =~= pre.replies);
}

/// Over any run of lines, the server invariant holds throughout, eggs and
/// players together stay as many, and the replies of the first state are
/// still the first replies of the last.
pub proof fn law_trace_invariants(
    lines: Seq<Seq<char>>,
    width: usize,
    height: usize,
    trace: Seq<ServerView>,
)
    requires
        valid_trace(lines, width, height, trace),
        server_invariant(trace[0]),
    ensures
        forall|i: int| 0 <= i < trace.len() ==> #[trigger] server_invariant(trace[i]),
        trace.last().eggs.len() + trace.last().players.len() == trace[0].eggs.len()
            + trace[0].players.len(),
        trace.last().replies.len() >= trace[0].replies.len(),
        trace.last().replies.take(trace[0].replies.len() as int) == trace[0].replies,
    decreases lines.len(),
{
    if lines.len() == 0 {
        assert(trace[0].replies.take(trace[0].replies.len() as int) =~= trace[0].replies);
    } else {
        let k = lines.len() - 1;
        let shorter = trace.drop_last();
        assert forall|i: int| 0 <= i < lines.drop_last().len() implies #[trigger] line_step(
            lines.drop_last()[i],
            width,
            height,
            shorter[i],
            shorter[i + 1],
        ) by {
            assert(line_step(lines[i], width, height, trace[i], trace[i + 1]));
        }
        law_trace_invariants(lines.drop_last(), width, height, shorter);
        assert(line_step(lines[k], width, height, trace[k], trace[k + 1]));
        assert(shorter.last() == trace[k]);
        law_line_step_invariants(lines[k], width, height, trace[k], trace[k + 1]);
        assert forall|i: int| 0 <= i < trace.len() implies #[trigger] server_invariant(trace[i]) by {
            if i < trace.len() - 1 {
                assert(shorter[i] == trace[i]);
            }
        }
        let n0 = trace[0].replies.len() as int;
        assert(trace[k].replies.take(n0) == trace[0].replies);
        assert(trace.last().replies.take(n0) =~= trace.last().replies.take(
            trace[k].replies.len() as int,
        ).take(n0));
    }
}

/// A client that introduces itself under a team name takes a slot of that
/// team only when the team had one free and an egg left; otherwise it is
/// refused and nothing but the replies changes.
pub proof fn law_handshake_refusal(
    line: Seq<char>,
    width: usize,
    height: usize,
    pre: ServerView,
    post: ServerView,
)
    requires
        handshake_step(line, width, height, pre, post),
        post.state == ClientState::WaitingTeamName,
        pre.state == ClientState::WaitingTeamName,
    ensures
        post == (ServerView { replies: post.replies, ..pre }),
        post.replies == pre.replies.push(crate::server_protocol::ko_reply()),
{
    if line != crate::constants::GRAPHIC_TEAM_NAME@ {
        if let Some(ti) = crate::server_protocol::first_team_named(pre.teams, line) {
            let team = pre.teams[ti];
            if !(team.connected >= team.max_clients || !crate::egg::has_team_egg(
                pre.eggs,
                team.name@,
            )) {
                let e = choose|e: int| #[trigger] hatch_step(ti, e, width, height, pre, post);
            }
        }
    }
}

/// On a fresh map, spawning leaves exactly `min(quantity, tiles)` units of
/// each resource, `quantity` being its computed quantity.
pub proof fn law_spawn_on_fresh_map(before: Seq<Tile>, after: Seq<Tile>, r: Resource)
    requires
        all_empty(before),
        total_resource(after, r) == total_resource(before, r) + min_nat(
            spec_resource_quantity(before.len(), density_of(r) as nat),
            before.len(),
        ),
    ensures
        total_resource(after, r) == min_nat(
            spec_resource_quantity(before.len(), density_of(r) as nat),
            before.len(),
        ),
        total_resource(after, r) <= before.len(),
{
    lemma_total_empty(before, r);
}


/// The digits that the server writes for a count are the digits of that
/// count, as text.
pub proof fn law_decimal_bytes_are_text(n: nat)
    ensures
        crate::server_protocol::decimal(n).map_values(|b: u8| b as char)
            == crate::text::decimal_chars(n),
    decreases n,
{
    let bytes = crate::server_protocol::decimal(n);
    if n >= 10 {
        law_decimal_bytes_are_text(n / 10);
        assert(bytes.map_values(|b: u8| b as char) =~= crate::server_protocol::decimal(
            n / 10,
        ).map_values(|b: u8| b as char).push((48 + n % 10) as char));
    } else {
        assert(bytes.map_values(|b: u8| b as char) =~= seq![(48 + n) as char]);
    }
}

/// A count that the server writes on a line of its own (the number of eggs
/// left, in the handshake) is read by the client as that count.
pub proof fn law_connect_number_roundtrip(n: nat)
    requires
        n <= u32::MAX,
    ensures
        crate::ai_protocol::spec_parse_response(
            crate::server_protocol::decimal(n).map_values(|b: u8| b as char),
        ) == Some(crate::ai_protocol::ResponseView::ConnectNbr(n as u32)),
{
    law_decimal_bytes_are_text(n);
    let s = crate::text::decimal_chars(n);
    crate::text::lemma_decimal_chars_digits(n);
    assert(!crate::text::is_white(s[0]));
    assert(!crate::text::is_white(s.last()));
    crate::text::lemma_trim_unchanged(s);
    crate::text::lemma_parse_decimal(n, u32::MAX as nat);
    reveal_strlit("ok");
    reveal_strlit("ko");
    reveal_strlit("dead");
    reveal_strlit("Elevation underway");
    reveal_strlit("Current level: ");
    reveal_strlit("message ");
    reveal_strlit("eject: ");
    assert(s != "ok"@ && s != "ko"@ && s != "dead"@ && s != "Elevation underway"@) by {
        assert(s[0] != 'o' && s[0] != 'k' && s[0] != 'd' && s[0] != 'E');
    }
    assert(!"Current level: "@.is_prefix_of(s)) by {
        if "Current level: "@.is_prefix_of(s) {
            assert(s[0] == "Current level: "@[0]);
        }
    }
    assert(!"message "@.is_prefix_of(s)) by {
        if "message "@.is_prefix_of(s) {
            assert(s[0] == "message "@[0]);
        }
    }
    assert(!"eject: "@.is_prefix_of(s)) by {
        if "eject: "@.is_prefix_of(s) {
            assert(s[0] == "eject: "@[0]);
        }
    }
}

/// Pressing F1 twice leaves the console as it was.
pub proof fn law_console_toggle_twice(c: crate::console::ConsoleView)
    ensures
        crate::console::spec_handle_input(
            crate::console::spec_handle_input(c, true, "F1"@).0,
            true,
            "F1"@,
        ).0 == c,
        crate::console::spec_handle_input(c, true, "F1"@).1,
{
}

/// A reserved slot given back leaves the team as it was.
pub proof fn law_team_reserve_release(t: Team)
    requires
        t.connected < t.max_clients,
    ensures
        crate::team::after_release(crate::team::after_reserve(t)) == t,
{
}


/// What stays in a client's buffer once its lines are handled holds no
/// line end: it is the start of a line still to come.
pub proof fn law_leftover_is_incomplete_line(buffer: Seq<char>)
    ensures
        forall|i: int|
            0 <= i < crate::server_protocol::split_lines(buffer).1.len() ==> #[trigger] crate::server_protocol::split_lines(
                buffer,
            ).1[i] != crate::constants::LINE_DELIMITER,
    decreases buffer.len(),
{
    crate::text::lemma_first_index_of_bounds(buffer, crate::constants::LINE_DELIMITER);
    crate::text::lemma_first_index_of_none(buffer, crate::constants::LINE_DELIMITER);
    match crate::text::first_index_of(buffer, crate::constants::LINE_DELIMITER) {
        None => {
            assert(crate::server_protocol::split_lines(buffer).1 == buffer);
        },
        Some(i) => {
            law_leftover_is_incomplete_line(buffer.skip(i + 1));
            assert(crate::server_protocol::split_lines(buffer).1 == crate::server_protocol::split_lines(
                buffer.skip(i + 1),
            ).1);
        },
    }
}


/// White space around a line from the server never changes how it parses, nor
/// whether `parse_response` accepts it.
pub proof fn law_parse_response_ignores_surrounding_space(line: Seq<char>)
    ensures
        crate::ai_protocol::spec_parse_response(crate::text::trim(line))
            == crate::ai_protocol::spec_parse_response(line),
        crate::ai_protocol::response_fits(crate::text::trim(line))
            == crate::ai_protocol::response_fits(line),
{
    crate::text::lemma_trim_idempotent(line);
}

proof fn lemma_ascii_uppercase_idempotent(s: Seq<char>)
    requires
        crate::input_bindings::is_ascii_text(s),
    ensures
        crate::input_bindings::is_ascii_text(crate::input_bindings::ascii_uppercase(s)),
        crate::input_bindings::ascii_uppercase(crate::input_bindings::ascii_uppercase(s))
            == crate::input_bindings::ascii_uppercase(s),
{
    let u = crate::input_bindings::ascii_uppercase(s);
    assert forall|i: int| 0 <= i < u.len() implies (#[trigger] u[i] as u32) < 128 && !('a' <= u[i] <= 'z') by {
        assert((s[i] as u32) < 128);
        if 'a' <= s[i] <= 'z' {
            let n = (s[i] as u32) - 32;
            assert(65 <= n <= 90);
            assert(u[i] == n as char);
            assert((n as char) as u32 == n);
        }
    }
    assert(crate::input_bindings::ascii_uppercase(u) =~= u);
}

/// On ASCII key names, case does not matter: a name and its upper-case
/// form name the same trigger.
pub proof fn law_parse_trigger_ignores_ascii_case(s: Seq<char>)
    requires
        crate::input_bindings::is_ascii_text(s),
    ensures
        crate::input_bindings::is_ascii_text(crate::input_bindings::ascii_uppercase(s)),
        crate::input_bindings::spec_trigger_of_upper(
            crate::input_bindings::ascii_uppercase(crate::input_bindings::ascii_uppercase(s)),
        ) == crate::input_bindings::spec_trigger_of_upper(crate::input_bindings::ascii_uppercase(s)),
{
    lemma_ascii_uppercase_idempotent(s);
}


/// On an open console, typed text goes after what was typed before: the new
/// input is the old input followed by the text, and nothing else changes.
pub proof fn law_typed_text_is_appended(c: crate::console::ConsoleView, text: Seq<char>)
    requires
        c.opened,
    ensures
        ({
            let (after, consumed, command) = crate::console::spec_handle_input(c, false, text);
            &&& after.input == c.input + text
            &&& after.input.take(c.input.len() as int) == c.input
            &&& after.input.skip(c.input.len() as int) == text
            &&& after.opened && after.logs == c.logs
            &&& consumed && command is None
        }),
{
    let after = crate::console::spec_handle_input(c, false, text).0;
    assert(after.input.take(c.input.len() as int) =~= c.input);
    assert(after.input.skip(c.input.len() as int) =~= text);
}

/// Typing two pieces of text one after the other on an open console leaves
/// the same input as typing them at once.
pub proof fn law_typing_in_pieces(c: crate::console::ConsoleView, a: Seq<char>, b: Seq<char>)
    requires
        c.opened,
    ensures
        crate::console::spec_handle_input(
            crate::console::spec_handle_input(c, false, a).0,
            false,
            b,
        ).0 == crate::console::spec_handle_input(c, false, a + b).0,
{
    assert(c.input + a + b =~= c.input + (a + b));
}

/// On an open console, Backspace takes back the last character typed: what
/// is left, followed by that character, is the old input.
pub proof fn law_backspace_undoes_typing(c: crate::console::ConsoleView, ch: char)
    requires
        c.opened,
    ensures
        ({
            let typed = crate::console::spec_handle_input(c, false, seq![ch]).0;
            crate::console::spec_handle_input(typed, true, "Backspace"@).0 == c
        }),
{
    reveal_strlit("Backspace");
    reveal_strlit("F1");
    reveal_strlit("Enter");
    let typed = crate::console::spec_handle_input(c, false, seq![ch]).0;
    assert(typed.input.drop_last() =~= c.input);
}

/// The upper-cased name of each key that bindings may name.
pub open spec fn key_label(k: crate::input_bindings::KeyName) -> Seq<char> {
    match k {
        crate::input_bindings::KeyName::F1 => "F1"@,
        crate::input_bindings::KeyName::Enter => "ENTER"@,
        crate::input_bindings::KeyName::Backspace => "BACKSPACE"@,
        crate::input_bindings::KeyName::Up => "UP"@,
        crate::input_bindings::KeyName::Down => "DOWN"@,
        crate::input_bindings::KeyName::Left => "LEFT"@,
        crate::input_bindings::KeyName::Right => "RIGHT"@,
        crate::input_bindings::KeyName::W => "W"@,
        crate::input_bindings::KeyName::A => "A"@,
        crate::input_bindings::KeyName::S => "S"@,
        crate::input_bindings::KeyName::D => "D"@,
        crate::input_bindings::KeyName::Q => "Q"@,
        crate::input_bindings::KeyName::Z => "Z"@,
    }
}

/// The upper-cased name of each mouse button that bindings may name.
pub open spec fn button_label(b: crate::input_bindings::MouseName) -> Seq<char> {
    match b {
        crate::input_bindings::MouseName::Left => "MOUSELEFT"@,
        crate::input_bindings::MouseName::Right => "MOUSERIGHT"@,
    }
}


/// Each key is named by its own name: that name parses to it, so every key
/// can be bound.
pub proof fn law_key_names_round_trip(k: crate::input_bindings::KeyName)
    ensures
        crate::input_bindings::spec_trigger_of_upper(key_label(k)) == Some(
            crate::input_bindings::InputTrigger::Key(k),
        ),
{
    reveal_strlit("MOUSELEFT");
    reveal_strlit("MOUSERIGHT");
    reveal_strlit("F1");
    reveal_strlit("ENTER");
    reveal_strlit("BACKSPACE");
    reveal_strlit("UP");
    reveal_strlit("DOWN");
    reveal_strlit("LEFT");
    reveal_strlit("RIGHT");
    reveal_strlit("W");
    reveal_strlit("A");
    reveal_strlit("S");
    reveal_strlit("D");
    reveal_strlit("Q");
    reveal_strlit("Z");
    assert("MOUSELEFT"@[0] == 'M');
    assert("MOUSELEFT"@.len() == 9);
    assert("MOUSERIGHT"@[0] == 'M');
    assert("MOUSERIGHT"@.len() == 10);
    assert("F1"@[0] == 'F');
    assert("F1"@.len() == 2);
    assert("ENTER"@[0] == 'E');
    assert("ENTER"@.len() == 5);
    assert("BACKSPACE"@[0] == 'B');
    assert("BACKSPACE"@.len() == 9);
    assert("UP"@[0] == 'U');
    assert("UP"@.len() == 2);
    assert("DOWN"@[0] == 'D');
    assert("DOWN"@.len() == 4);
    assert("LEFT"@[0] == 'L');
    assert("LEFT"@.len() == 4);
    assert("RIGHT"@[0] == 'R');
    assert("RIGHT"@.len() == 5);
    assert("W"@[0] == 'W');
    assert("W"@.len() == 1);
    assert("A"@[0] == 'A');
    assert("A"@.len() == 1);
    assert("S"@[0] == 'S');
    assert("S"@.len() == 1);
    assert("D"@[0] == 'D');
    assert("D"@.len() == 1);
    assert("Q"@[0] == 'Q');
    assert("Q"@.len() == 1);
    assert("Z"@[0] == 'Z');
    assert("Z"@.len() == 1);
    match k {
        crate::input_bindings::KeyName::F1 => {
            assert(crate::input_bindings::spec_trigger_of_upper(key_label(k)) == Some(crate::input_bindings::InputTrigger::Key(k)));
        },
        crate::input_bindings::KeyName::Enter => {
            assert(crate::input_bindings::spec_trigger_of_upper(key_label(k)) == Some(crate::input_bindings::InputTrigger::Key(k)));
        },
        crate::input_bindings::KeyName::Backspace => {
            assert(crate::input_bindings::spec_trigger_of_upper(key_label(k)) == Some(crate::input_bindings::InputTrigger::Key(k)));
        },
        crate::input_bindings::KeyName::Up => {
            assert(crate::input_bindings::spec_trigger_of_upper(key_label(k)) == Some(crate::input_bindings::InputTrigger::Key(k)));
        },
        crate::input_bindings::KeyName::Down => {
            assert(crate::input_bindings::spec_trigger_of_upper(key_label(k)) == Some(crate::input_bindings::InputTrigger::Key(k)));
        },
        crate::input_bindings::KeyName::Left => {
            assert(crate::input_bindings::spec_trigger_of_upper(key_label(k)) == Some(crate::input_bindings::InputTrigger::Key(k)));
        },
        crate::input_bindings::KeyName::Right => {
            assert(crate::input_bindings::spec_trigger_of_upper(key_label(k)) == Some(crate::input_bindings::InputTrigger::Key(k)));
        },
        crate::input_bindings::KeyName::W => {
            assert(crate::input_bindings::spec_trigger_of_upper(key_label(k)) == Some(crate::input_bindings::InputTrigger::Key(k)));
        },
        crate::input_bindings::KeyName::A => {
            assert(crate::input_bindings::spec_trigger_of_upper(key_label(k)) == Some(crate::input_bindings::InputTrigger::Key(k)));
        },
        crate::input_bindings::KeyName::S => {
            assert(crate::input_bindings::spec_trigger_of_upper(key_label(k)) == Some(crate::input_bindings::InputTrigger::Key(k)));
        },
        crate::input_bindings::KeyName::D => {
            assert(crate::input_bindings::spec_trigger_of_upper(key_label(k)) == Some(crate::input_bindings::InputTrigger::Key(k)));
        },
        crate::input_bindings::KeyName::Q => {
            assert(crate::input_bindings::spec_trigger_of_upper(key_label(k)) == Some(crate::input_bindings::InputTrigger::Key(k)));
        },
        crate::input_bindings::KeyName::Z => {
            assert(crate::input_bindings::spec_trigger_of_upper(key_label(k)) == Some(crate::input_bindings::InputTrigger::Key(k)));
        },
    }
}

/// Each mouse button is named by its own name: that name parses to it.
pub proof fn law_button_names_round_trip(b: crate::input_bindings::MouseName)
    ensures
        crate::input_bindings::spec_trigger_of_upper(button_label(b)) == Some(
            crate::input_bindings::InputTrigger::Mouse(b),
        ),
{
    reveal_strlit("MOUSELEFT");
    reveal_strlit("MOUSERIGHT");
    reveal_strlit("F1");
    reveal_strlit("ENTER");
    reveal_strlit("BACKSPACE");
    reveal_strlit("UP");
    reveal_strlit("DOWN");
    reveal_strlit("LEFT");
    reveal_strlit("RIGHT");
    reveal_strlit("W");
    reveal_strlit("A");
    reveal_strlit("S");
    reveal_strlit("D");
    reveal_strlit("Q");
    reveal_strlit("Z");
    assert("MOUSELEFT"@[0] == 'M');
    assert("MOUSELEFT"@.len() == 9);
    assert("MOUSERIGHT"@[0] == 'M');
    assert("MOUSERIGHT"@.len() == 10);
    assert("F1"@[0] == 'F');
    assert("F1"@.len() == 2);
    assert("ENTER"@[0] == 'E');
    assert("ENTER"@.len() == 5);
    assert("BACKSPACE"@[0] == 'B');
    assert("BACKSPACE"@.len() == 9);
    assert("UP"@[0] == 'U');
    assert("UP"@.len() == 2);
    assert("DOWN"@[0] == 'D');
    assert("DOWN"@.len() == 4);
    assert("LEFT"@[0] == 'L');
    assert("LEFT"@.len() == 4);
    assert("RIGHT"@[0] == 'R');
    assert("RIGHT"@.len() == 5);
    assert("W"@[0] == 'W');
    assert("W"@.len() == 1);
    assert("A"@[0] == 'A');
    assert("A"@.len() == 1);
    assert("S"@[0] == 'S');
    assert("S"@.len() == 1);
    assert("D"@[0] == 'D');
    assert("D"@.len() == 1);
    assert("Q"@[0] == 'Q');
    assert("Q"@.len() == 1);
    assert("Z"@[0] == 'Z');
    assert("Z"@.len() == 1);
    match b {
        crate::input_bindings::MouseName::Left => {
            assert(crate::input_bindings::spec_trigger_of_upper(button_label(b)) == Some(crate::input_bindings::InputTrigger::Mouse(b)));
        },
        crate::input_bindings::MouseName::Right => {
            assert(crate::input_bindings::spec_trigger_of_upper(button_label(b)) == Some(crate::input_bindings::InputTrigger::Mouse(b)));
        },
    }
}

/// Two different names never name the same trigger, and a name that names a
/// trigger is the name of that key or button.
pub proof fn law_trigger_names_are_distinct(s1: Seq<char>, s2: Seq<char>)
    ensures
        crate::input_bindings::spec_trigger_of_upper(s1) is Some
            && crate::input_bindings::spec_trigger_of_upper(s1)
            == crate::input_bindings::spec_trigger_of_upper(s2) ==> s1 == s2,
        crate::input_bindings::spec_trigger_of_upper(s1) matches Some(
            crate::input_bindings::InputTrigger::Key(k),
        ) ==> s1 == key_label(k),
        crate::input_bindings::spec_trigger_of_upper(s1) matches Some(
            crate::input_bindings::InputTrigger::Mouse(b),
        ) ==> s1 == button_label(b),
{
    reveal_strlit("MOUSELEFT");
    reveal_strlit("MOUSERIGHT");
    reveal_strlit("F1");
    reveal_strlit("ENTER");
    reveal_strlit("BACKSPACE");
    reveal_strlit("UP");
    reveal_strlit("DOWN");
    reveal_strlit("LEFT");
    reveal_strlit("RIGHT");
    reveal_strlit("W");
    reveal_strlit("A");
    reveal_strlit("S");
    reveal_strlit("D");
    reveal_strlit("Q");
    reveal_strlit("Z");
}

/// Taking resource `r` is allowed exactly when the tile the player stands on
/// (the first tile of the last `Look` answer, read from the text `part`)
/// lists that resource under the name that the `Take` action for it uses;
/// ejecting is allowed exactly when the tile lists another player besides.
pub proof fn law_take_follows_the_tile(s: crate::ai_state::GameState, part: Seq<char>, r: int)
    requires
        0 <= r < 7,
        s.look_tiles@.len() > 0,
        s.look_tiles@[0] == crate::ai_protocol::spec_tile(part),
        crate::ai_protocol::tile_fits(part),
    ensures
        crate::ai_protocol::spec_action_command((5 + r) as usize) == "Take "@
            + crate::ai_protocol::resource_word(r),
        crate::ai_state::spec_valid_mask(s)[5 + r] == (crate::ai_protocol::count_tokens(
            crate::text::ws_tokens(part),
            crate::ai_protocol::resource_word(r),
        ) > 0),
        crate::ai_state::spec_valid_mask(s)[1] == (crate::ai_protocol::count_tokens(
            crate::text::ws_tokens(part),
            "player"@,
        ) > 1),
{
    crate::ai_protocol::lemma_resource_words();
    reveal_strlit("Take ");
    reveal_strlit("Take food");
    reveal_strlit("Set food");
    reveal_strlit("Take linemate");
    reveal_strlit("Set linemate");
    reveal_strlit("Take deraumere");
    reveal_strlit("Set deraumere");
    reveal_strlit("Take sibur");
    reveal_strlit("Set sibur");
    reveal_strlit("Take mendiane");
    reveal_strlit("Set mendiane");
    reveal_strlit("Take phiras");
    reveal_strlit("Set phiras");
    reveal_strlit("Take thystame");
    reveal_strlit("Set thystame");
    let w = crate::ai_protocol::resource_word(r);
    assert(crate::ai_protocol::spec_action_command((5 + r) as usize) =~= "Take "@ + w);
}

/// Without a tile in view nothing can be taken and nobody ejected; putting
/// down resource `r` is allowed exactly when the inventory holds some of it,
/// under the name that the `Set` action for it uses.
pub proof fn law_set_follows_the_inventory(s: crate::ai_state::GameState, r: int)
    requires
        0 <= r < 7,
    ensures
        s.look_tiles@.len() == 0 ==> !crate::ai_state::spec_valid_mask(s)[5 + r]
            && !crate::ai_state::spec_valid_mask(s)[1],
        crate::ai_protocol::spec_action_command((12 + r) as usize) == "Set "@
            + crate::ai_protocol::resource_word(r),
        crate::ai_state::spec_valid_mask(s)[12 + r] == (s.inventory@[r] > 0),
{
    crate::ai_protocol::lemma_resource_words();
    reveal_strlit("Set ");
    reveal_strlit("Take food");
    reveal_strlit("Set food");
    reveal_strlit("Take linemate");
    reveal_strlit("Set linemate");
    reveal_strlit("Take deraumere");
    reveal_strlit("Set deraumere");
    reveal_strlit("Take sibur");
    reveal_strlit("Set sibur");
    reveal_strlit("Take mendiane");
    reveal_strlit("Set mendiane");
    reveal_strlit("Take phiras");
    reveal_strlit("Set phiras");
    reveal_strlit("Take thystame");
    reveal_strlit("Set thystame");
    let w = crate::ai_protocol::resource_word(r);
    assert(crate::ai_protocol::spec_action_command((12 + r) as usize) =~= "Set "@ + w);
}

/// An inventory entry for resource `r`: its name, a space, then `n`.
pub open spec fn inventory_entry_text(r: int, n: nat) -> Seq<char> {
    crate::ai_protocol::resource_word(r) + seq![' '] + crate::text::decimal_chars(n)
}

proof fn lemma_resource_word_shape(r: int)
    requires
        0 <= r < 7,
    ensures
        crate::ai_protocol::resource_word(r).len() > 0,
        forall|j: int|
            0 <= j < crate::ai_protocol::resource_word(r).len() ==> !crate::text::is_white(
                #[trigger] crate::ai_protocol::resource_word(r)[j],
            ) && crate::ai_protocol::resource_word(r)[j] != ',' && crate::ai_protocol::resource_word(r)[j] != '[',
        crate::ai_protocol::resource_key_index(crate::ai_protocol::resource_word(r)) == Some(r),
{
    crate::ai_protocol::lemma_resource_words();
    reveal_strlit("food");
    reveal_strlit("linemate");
    reveal_strlit("deraumere");
    reveal_strlit("sibur");
    reveal_strlit("mendiane");
    reveal_strlit("phiras");
    reveal_strlit("thystame");
    let w = crate::ai_protocol::resource_word(r);
    reveal(crate::ai_protocol::resource_key_index);
    assert("food"@.len() == 4 && "food"@[0] == 'f');
    assert("linemate"@.len() == 8 && "linemate"@[0] == 'l');
    assert("deraumere"@.len() == 9 && "deraumere"@[0] == 'd');
    assert("sibur"@.len() == 5 && "sibur"@[0] == 's');
    assert("mendiane"@.len() == 8 && "mendiane"@[0] == 'm');
    assert("phiras"@.len() == 6 && "phiras"@[0] == 'p');
    assert("thystame"@.len() == 8 && "thystame"@[0] == 't');
    if r == 0 {
        assert(w =~= "food"@);
    } else if r == 1 {
        assert(w =~= "linemate"@);
    } else if r == 2 {
        assert(w =~= "deraumere"@);
    } else if r == 3 {
        assert(w =~= "sibur"@);
    } else if r == 4 {
        assert(w =~= "mendiane"@);
    } else if r == 5 {
        assert(w =~= "phiras"@);
    } else if r == 6 {
        assert(w =~= "thystame"@);
    }
}

/// The entry for resource `r` with count `n` reads as setting resource `r`
/// to `n`.
proof fn lemma_inventory_entry_text(r: int, n: nat)
    requires
        0 <= r < 7,
        n <= u32::MAX,
    ensures
        crate::ai_protocol::inventory_entry(inventory_entry_text(r, n)) == Some((Some(r), n as u32)),
        forall|j: int|
            0 <= j < inventory_entry_text(r, n).len() ==> #[trigger] inventory_entry_text(r, n)[j]
                != ',',
        !crate::text::is_white(inventory_entry_text(r, n)[0]),
        inventory_entry_text(r, n)[0] != '[',
        !crate::text::is_white(inventory_entry_text(r, n).last()),
        inventory_entry_text(r, n).last() != ']',
{
    let w = crate::ai_protocol::resource_word(r);
    let d = crate::text::decimal_chars(n);
    let e = inventory_entry_text(r, n);
    lemma_resource_word_shape(r);
    crate::text::lemma_decimal_chars_digits(n);
    assert(e.last() == d.last());
    assert(e[0] == w[0]);
    assert forall|j: int| 0 <= j < e.len() implies #[trigger] e[j] != ',' by {
        if j < w.len() {
            assert(e[j] == w[j]);
        } else if j > w.len() {
            assert(e[j] == d[j - w.len() - 1]);
        }
    }
    crate::text::lemma_trim_unchanged(e);
    crate::text::lemma_first_index_of_unfold(e, ' ');
    assert(e[w.len() as int] == ' ');
    let i = crate::text::first_index_of(e, ' ').unwrap();
    if i < w.len() {
        assert(e[i] == w[i]);
    }
    assert(i == w.len());
    assert(e.skip(i + 1) =~= d);
    assert(e.take(i) =~= w);
    crate::text::lemma_trim_unchanged(d);
    crate::text::lemma_trim_unchanged(w);
    crate::text::lemma_parse_decimal(n, u32::MAX as nat);
}

/// An inventory entry for resource `r` sets that resource, and only it, to
/// its count, whatever entries came before it.
pub proof fn law_inventory_entry_sets_its_resource(parts: Seq<Seq<char>>, r: int, n: nat)
    requires
        0 <= r < 7,
        n <= u32::MAX,
    ensures
        crate::ai_protocol::inventory_fold(parts.push(inventory_entry_text(r, n))) == match crate::ai_protocol::inventory_fold(parts) {
            Some(acc) => Some(acc.update(r, n as u32)),
            None => None,
        },
{
    lemma_inventory_entry_text(r, n);
    assert(parts.push(inventory_entry_text(r, n)).drop_last() =~= parts);
}

/// An inventory that lists one resource, by the name that its `Take` action
/// uses, reads as that count in the field of that name and zero elsewhere.
pub proof fn law_inventory_of_one_resource(r: int, n: nat)
    requires
        0 <= r < 7,
        n <= u32::MAX,
    ensures
        ({
            let w = crate::ai_protocol::resource_word(r);
            let v = n as u32;
            crate::ai_protocol::spec_parse_inventory(seq!['['] + inventory_entry_text(r, n) + seq![']'])
                == Some(crate::ai_protocol::ResponseView::Inventory {
                food: if w == "food"@ { v } else { 0 },
                linemate: if w == "linemate"@ { v } else { 0 },
                deraumere: if w == "deraumere"@ { v } else { 0 },
                sibur: if w == "sibur"@ { v } else { 0 },
                mendiane: if w == "mendiane"@ { v } else { 0 },
                phiras: if w == "phiras"@ { v } else { 0 },
                thystame: if w == "thystame"@ { v } else { 0 },
            })
        }),
{
    let e = inventory_entry_text(r, n);
    let line = seq!['['] + e + seq![']'];
    lemma_inventory_entry_text(r, n);
    crate::ai_protocol::lemma_resource_words();
    reveal_strlit("food");
    reveal_strlit("linemate");
    reveal_strlit("deraumere");
    reveal_strlit("sibur");
    reveal_strlit("mendiane");
    reveal_strlit("phiras");
    reveal_strlit("thystame");
    assert(line.drop_first() =~= e + seq![']']);
    assert(crate::ai_protocol::strip_leading(e + seq![']'], '[') == e + seq![']']);
    assert((e + seq![']']).drop_last() =~= e);
    assert(crate::ai_protocol::strip_trailing(e, ']') == e);
    assert(crate::ai_protocol::bracket_inner(line) == e);
    crate::text::lemma_split_char_without_sep(e, ',');
    assert(seq![e] =~= Seq::<Seq<char>>::empty().push(e));
    law_inventory_entry_sets_its_resource(Seq::empty(), r, n);
}

/// The name under which a bindings file names each action, if it has one;
/// the scroll actions come from the wheel and have none.
pub open spec fn action_label(a: crate::input_bindings::InputAction) -> Option<Seq<char>> {
    match a {
        crate::input_bindings::InputAction::ToggleConsole => Some("ToggleConsole"@),
        crate::input_bindings::InputAction::Confirm => Some("Confirm"@),
        crate::input_bindings::InputAction::Delete => Some("Delete"@),
        crate::input_bindings::InputAction::NavigateUp => Some("NavigateUp"@),
        crate::input_bindings::InputAction::NavigateDown => Some("NavigateDown"@),
        crate::input_bindings::InputAction::MoveForward => Some("MoveForward"@),
        crate::input_bindings::InputAction::MoveBackward => Some("MoveBackward"@),
        crate::input_bindings::InputAction::MoveLeft => Some("MoveLeft"@),
        crate::input_bindings::InputAction::MoveRight => Some("MoveRight"@),
        crate::input_bindings::InputAction::PrimaryAction => Some("PrimaryAction"@),
        crate::input_bindings::InputAction::ScrollUp => None,
        crate::input_bindings::InputAction::ScrollDown => None,
    }
}

/// Each action that has a name is read back from its name.
pub proof fn law_action_names_round_trip(a: crate::input_bindings::InputAction)
    ensures
        action_label(a) matches Some(n) ==> crate::input_bindings::spec_parse_action(n) == Some(a),
{
    reveal_strlit("ToggleConsole");
    assert("ToggleConsole"@.len() == 13 && "ToggleConsole"@[0] == 'T');
    reveal_strlit("Confirm");
    assert("Confirm"@.len() == 7 && "Confirm"@[0] == 'C');
    reveal_strlit("Delete");
    assert("Delete"@.len() == 6 && "Delete"@[0] == 'D');
    reveal_strlit("NavigateUp");
    assert("NavigateUp"@.len() == 10 && "NavigateUp"@[0] == 'N');
    reveal_strlit("NavigateDown");
    assert("NavigateDown"@.len() == 12 && "NavigateDown"@[0] == 'N');
    reveal_strlit("MoveForward");
    assert("MoveForward"@.len() == 11 && "MoveForward"@[0] == 'M');
    reveal_strlit("MoveBackward");
    assert("MoveBackward"@.len() == 12 && "MoveBackward"@[0] == 'M');
    reveal_strlit("MoveLeft");
    assert("MoveLeft"@.len() == 8 && "MoveLeft"@[0] == 'M');
    reveal_strlit("MoveRight");
    assert("MoveRight"@.len() == 9 && "MoveRight"@[0] == 'M');
    reveal_strlit("PrimaryAction");
    assert("PrimaryAction"@.len() == 13 && "PrimaryAction"@[0] == 'P');
    match a {
        crate::input_bindings::InputAction::ToggleConsole => {},
        crate::input_bindings::InputAction::Confirm => {},
        crate::input_bindings::InputAction::Delete => {},
        crate::input_bindings::InputAction::NavigateUp => {},
        crate::input_bindings::InputAction::NavigateDown => {},
        crate::input_bindings::InputAction::MoveForward => {},
        crate::input_bindings::InputAction::MoveBackward => {},
        crate::input_bindings::InputAction::MoveLeft => {},
        crate::input_bindings::InputAction::MoveRight => {},
        crate::input_bindings::InputAction::PrimaryAction => {},
        crate::input_bindings::InputAction::ScrollUp => {},
        crate::input_bindings::InputAction::ScrollDown => {},
    }
}

/// A name that a bindings file may use names one action, that action's own
/// name; two different names never name the same action.
pub proof fn law_action_names_are_distinct(s1: Seq<char>, s2: Seq<char>)
    ensures
        crate::input_bindings::spec_parse_action(s1) matches Some(a) ==> action_label(a) == Some(s1),
        crate::input_bindings::spec_parse_action(s1) is Some && crate::input_bindings::spec_parse_action(s1)
            == crate::input_bindings::spec_parse_action(s2) ==> s1 == s2,
{
    reveal_strlit("ToggleConsole");
    assert("ToggleConsole"@.len() == 13 && "ToggleConsole"@[0] == 'T');
    reveal_strlit("Confirm");
    assert("Confirm"@.len() == 7 && "Confirm"@[0] == 'C');
    reveal_strlit("Delete");
    assert("Delete"@.len() == 6 && "Delete"@[0] == 'D');
    reveal_strlit("NavigateUp");
    assert("NavigateUp"@.len() == 10 && "NavigateUp"@[0] == 'N');
    reveal_strlit("NavigateDown");
    assert("NavigateDown"@.len() == 12 && "NavigateDown"@[0] == 'N');
    reveal_strlit("MoveForward");
    assert("MoveForward"@.len() == 11 && "MoveForward"@[0] == 'M');
    reveal_strlit("MoveBackward");
    assert("MoveBackward"@.len() == 12 && "MoveBackward"@[0] == 'M');
    reveal_strlit("MoveLeft");
    assert("MoveLeft"@.len() == 8 && "MoveLeft"@[0] == 'M');
    reveal_strlit("MoveRight");
    assert("MoveRight"@.len() == 9 && "MoveRight"@[0] == 'M');
    reveal_strlit("PrimaryAction");
    assert("PrimaryAction"@.len() == 13 && "PrimaryAction"@[0] == 'P');
}

/// The actions that need nothing (the incantation, moving, turning,
/// broadcasting and forking) are always allowed; the action table names
/// each of the 22 actions.
pub proof fn law_free_actions_always_allowed(s: crate::ai_state::GameState, a: usize)
    requires
        a < 22,
        ({
            let c = crate::ai_protocol::spec_action_command(a);
            c == "Incantation"@ || c == "Forward"@ || c == "Left"@ || c == "Right"@
                || c == "Broadcast zappy"@ || c == "Fork"@
        }),
    ensures
        crate::ai_state::spec_valid_mask(s)[a as int],
{
    reveal_strlit("Incantation");
    reveal_strlit("Eject");
    reveal_strlit("Forward");
    reveal_strlit("Left");
    reveal_strlit("Right");
    reveal_strlit("Broadcast zappy");
    reveal_strlit("Fork");
    reveal_strlit("Take food");
    reveal_strlit("Take linemate");
    reveal_strlit("Take deraumere");
    reveal_strlit("Take sibur");
    reveal_strlit("Take mendiane");
    reveal_strlit("Take phiras");
    reveal_strlit("Take thystame");
    reveal_strlit("Set food");
    reveal_strlit("Set linemate");
    reveal_strlit("Set deraumere");
    reveal_strlit("Set sibur");
    reveal_strlit("Set mendiane");
    reveal_strlit("Set phiras");
    reveal_strlit("Set thystame");
    assert("Incantation"@.len() == 11 && "Incantation"@[0] == 'I');
    assert("Eject"@.len() == 5 && "Eject"@[0] == 'E');
    assert("Forward"@.len() == 7 && "Forward"@[0] == 'F');
    assert("Left"@.len() == 4 && "Left"@[0] == 'L');
    assert("Right"@.len() == 5 && "Right"@[0] == 'R');
    assert("Broadcast zappy"@.len() == 15 && "Broadcast zappy"@[0] == 'B');
    assert("Fork"@.len() == 4 && "Fork"@[0] == 'F');
    assert("Take food"@.len() == 9 && "Take food"@[0] == 'T');
    assert("Take linemate"@.len() == 13 && "Take linemate"@[0] == 'T');
    assert("Take deraumere"@.len() == 14 && "Take deraumere"@[0] == 'T');
    assert("Take sibur"@.len() == 10 && "Take sibur"@[0] == 'T');
    assert("Take mendiane"@.len() == 13 && "Take mendiane"@[0] == 'T');
    assert("Take phiras"@.len() == 11 && "Take phiras"@[0] == 'T');
    assert("Take thystame"@.len() == 13 && "Take thystame"@[0] == 'T');
    assert("Set food"@.len() == 8 && "Set food"@[0] == 'S');
    assert("Set linemate"@.len() == 12 && "Set linemate"@[0] == 'S');
    assert("Set deraumere"@.len() == 13 && "Set deraumere"@[0] == 'S');
    assert("Set sibur"@.len() == 9 && "Set sibur"@[0] == 'S');
    assert("Set mendiane"@.len() == 12 && "Set mendiane"@[0] == 'S');
    assert("Set phiras"@.len() == 10 && "Set phiras"@[0] == 'S');
    assert("Set thystame"@.len() == 12 && "Set thystame"@[0] == 'S');
}

/// A closed console takes no event but F1, and changes for none of them.
pub proof fn law_closed_console_ignores(c: crate::console::ConsoleView, pressed: bool, key: Seq<char>)
    requires
        !c.opened,
        !(pressed && key == "F1"@),
    ensures
        crate::console::spec_handle_input(c, pressed, key) == (c, false, None::<(Seq<char>, Seq<Seq<char>>)>),
{
}

/// Enter on an open console with something typed logs the typed line,
/// trimmed, after `> `, empties the input, and hands on the words of that
/// line as the command: its first word, then the others, in order.
pub proof fn law_enter_runs_the_typed_line(c: crate::console::ConsoleView)
    requires
        c.opened,
        crate::text::trim(c.input).len() > 0,
    ensures
        ({
            let (after, consumed, command) = crate::console::spec_handle_input(c, true, "Enter"@);
            let t = crate::text::trim(c.input);
            &&& consumed && after.opened
            &&& after.input.len() == 0
            &&& after.logs.len() == c.logs.len() + 1
            &&& after.logs.drop_last() == c.logs
            &&& after.logs.last() == "> "@ + t
            &&& command matches Some((name, args)) && seq![name] + args == crate::text::ws_tokens(t)
        }),
{
    reveal_strlit("Enter");
    reveal_strlit("F1");
    let t = crate::text::trim(c.input);
    let after = crate::console::spec_handle_input(c, true, "Enter"@).0;
    assert(after.logs.drop_last() =~= c.logs);
    let words = crate::text::ws_tokens(t);
    assert(words.len() > 0) by {
        crate::text::lemma_trim_ends(c.input);
        crate::text::lemma_ws_tokens_len(t);
    }
    assert(seq![words[0]] + words.skip(1) =~= words);
}
} // verus!
