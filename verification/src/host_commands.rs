use crate::text::{chars_of, str_eq, string_of_range};
use colored::Colorize;
use vstd::prelude::*;

verus! {

broadcast use vstd::string::group_string_axioms;

/// What the engine shares with the plugins it hosts.
#[derive(Debug)]
pub struct SharedEngineState {
    /// Log lines for the plugins to show.
    pub logs_to_broadcast: Vec<String>,
    /// Reloads asked for: `None` for every plugin, else one plugin's name.
    pub reload_queue: Vec<Option<String>>,
    /// The commands that plugins offer, with their help lines.
    pub cached_commands: Vec<(String, String)>,
}

pub open spec fn reload_view(q: Seq<Option<String>>) -> Seq<Option<Seq<char>>> {
    q.map_values(
        |r: Option<String>|
            match r {
                Some(s) => Some(s@),
                None => None,
            },
    )
}

pub open spec fn commands_view(c: Seq<(String, String)>) -> Seq<(Seq<char>, Seq<char>)> {
    c.map_values(|e: (String, String)| (e.0@, e.1@))
}

/// `s` padded with spaces on the right to `width` characters, as `{:<width}`
/// formats it.
pub open spec fn padded(s: Seq<char>, width: nat) -> Seq<char> {
    if s.len() < width {
        s + Seq::new((width - s.len()) as nat, |i: int| ' ')
    } else {
        s
    }
}

/// One help line per plugin command.
pub open spec fn help_lines(cmds: Seq<(Seq<char>, Seq<char>)>) -> Seq<char>
    decreases cmds.len(),
{
    if cmds.len() == 0 {
        Seq::empty()
    } else {
        help_lines(cmds.drop_last()) + "  "@ + padded(cmds.last().0, 18) + " - "@ + cmds.last().1
            + "\n"@
    }
}

/// The answer to command `cmd` with arguments `args`.
pub open spec fn spec_command_reply(
    cmd: Seq<char>,
    args: Seq<Seq<char>>,
    cmds: Seq<(Seq<char>, Seq<char>)>,
) -> Seq<char> {
    if cmd == "reload"@ {
        if args.len() == 0 {
            "Core: Reloading all plugins..."@
        } else {
            "Core: Reloading '"@ + args[0] + "'..."@
        }
    } else if cmd == "help"@ {
        "=== AVAILABLE COMMANDS ===\n"@ + ">>> help               - Show this help menu\n"@
            + ">>> reload [plugin]    - Reload one or all plugins\n"@ + help_lines(cmds)
    } else {
        "Unknown command: "@ + cmd + ". See available commands with 'help'."@
    }
}

/// The terminal code that ends a styled run: `ESC [ 0 m`.
pub open spec fn reset_code() -> Seq<char> {
    seq!['\u{1b}', '[', '0', 'm']
}

/// The terminal code that starts a run in style `style`: `ESC [ style m`.
pub open spec fn style_code(style: Seq<char>) -> Seq<char> {
    seq!['\u{1b}', '['] + style + seq!['m']
}

/// `s` with `code` inserted after each reset code that it holds, so that the
/// style goes on after a reset inside a styled run.
pub open spec fn restyle_after_resets(s: Seq<char>, code: Seq<char>) -> Seq<char>
    decreases s.len(),
{
    if s.len() == 0 {
        s
    } else if s.len() >= 4 && s.take(4) == reset_code() {
        reset_code() + code + restyle_after_resets(s.skip(4), code)
    } else {
        seq![s[0]] + restyle_after_resets(s.skip(1), code)
    }
}

/// `s` written in style `style` when colour is on: the style's code, `s`
/// restyled after each reset it holds, and a reset.
pub open spec fn styled(s: Seq<char>, style: Seq<char>) -> Seq<char> {
    style_code(style) + restyle_after_resets(s, style_code(style)) + reset_code()
}

/// The style of a plugin's tag: bold (`1`) in bright magenta (`95`).
pub open spec fn tag_style() -> Seq<char> {
    seq!['1', ';', '9', '5']
}

/// The style of a plugin's message: bright black (`90`).
pub open spec fn message_style() -> Seq<char> {
    seq!['9', '0']
}

/// `s` as `colored` displays it after `bright_magenta().bold()`. `colored`
/// writes colour codes or not depending on the environment (`NO_COLOR`,
/// `CLICOLOR`, `CLICOLOR_FORCE`, whether the output is a terminal), so the
/// contract gives both outcomes and leaves open which one comes.
#[verifier::external_body]
fn bright_magenta_bold(s: &str) -> (out: String)
    ensures
        out@ == s@ || out@ == styled(s@, tag_style()),
{
    s.bright_magenta().bold().to_string()
}

/// `s` as `colored` displays it after `bright_black()`; as for
/// `bright_magenta_bold`, whether colour codes are written depends on the
/// environment, and the contract gives both outcomes.
#[verifier::external_body]
fn bright_black(s: &str) -> (out: String)
    ensures
        out@ == s@ || out@ == styled(s@, message_style()),
{
    s.bright_black().to_string()
}

/// The tag that marks the log lines of plugins.
pub open spec fn plugin_tag() -> Seq<char> {
    seq!['[', 'P', 'L', 'U', 'G', 'I', 'N', ']']
}

/// The log line of a plugin for `msg`: the tag, a space and `msg`, the tag
/// styled when `tag_colored`, the message styled when `msg_colored`.
pub open spec fn plugin_log_line(msg: Seq<char>, tag_colored: bool, msg_colored: bool) -> Seq<char> {
    (if tag_colored {
        styled(plugin_tag(), tag_style())
    } else {
        plugin_tag()
    }) + seq![' '] + (if msg_colored {
        styled(msg, message_style())
    } else {
        msg
    })
}

/// `line` is the log line of a plugin for `msg`, each of its two parts plain
/// or styled as the environment has it.
pub open spec fn is_plugin_log_line(line: Seq<char>, msg: Seq<char>) -> bool {
    ||| line == plugin_log_line(msg, false, false)
    ||| line == plugin_log_line(msg, false, true)
    ||| line == plugin_log_line(msg, true, false)
    ||| line == plugin_log_line(msg, true, true)
}

/// Queues the log line of a plugin (see `is_plugin_log_line`) for the plugins
/// to show; nothing else of the shared state changes.
pub fn host_log(state: &mut SharedEngineState, msg: &str)
    ensures
        final(state).logs_to_broadcast@.len() == old(state).logs_to_broadcast@.len() + 1,
        final(state).logs_to_broadcast@.drop_last() == old(state).logs_to_broadcast@,
        is_plugin_log_line(final(state).logs_to_broadcast@.last()@, msg@),
        final(state).reload_queue@ == old(state).reload_queue@,
        final(state).cached_commands@ == old(state).cached_commands@,
{
    let tag = "[PLUGIN]";
    proof {
        reveal_strlit("[PLUGIN]");
        assert(tag@ =~= plugin_tag());
    }
    let mut line = bright_magenta_bold(tag);
    let ghost tag_out = line@;
    line.append(" ");
    let body = bright_black(msg);
    line.append(body.as_str());
    proof {
        reveal_strlit(" ");
        let tag_colored = tag_out != plugin_tag();
        let msg_colored = body@ != msg@;
        assert(line@ =~= plugin_log_line(msg@, tag_colored, msg_colored));
    }
    state.logs_to_broadcast.push(line);
}

/// Appends the characters of `s` to `out`.
fn push_text(out: &mut Vec<char>, s: &str)
    ensures
        final(out)@ == old(out)@ + s@,
{
    let chars = chars_of(s);
    let mut i: usize = 0;
    while i < chars.len()
        invariant
            i <= chars@.len(),
            chars@ == s@,
            out@ == old(out)@ + chars@.take(i as int),
        decreases chars@.len() - i,
    {
        out.push(chars[i]);
        assert(old(out)@ + chars@.take(i + 1) =~= (old(out)@ + chars@.take(i as int)).push(
            chars@[i as int],
        ));
        i = i + 1;
    }
    assert(chars@.take(i as int) =~= chars@);
}

/// Runs a console command for the plugins: `reload` queues a reload of all
/// plugins or of the one named, `help` lists the commands; the answer is
/// returned (see `spec_command_reply`).
pub fn host_system_command(state: &mut SharedEngineState, cmd: &str, args: &Vec<String>) -> (reply: String)
    ensures
        reply@ == spec_command_reply(
            cmd@,
            args@.map_values(|a: String| a@),
            commands_view(old(state).cached_commands@),
        ),
        reload_view(final(state).reload_queue@) == if cmd@ == "reload"@ {
            reload_view(old(state).reload_queue@).push(
                if args@.len() == 0 {
                    None
                } else {
                    Some(args@[0]@)
                },
            )
        } else {
            reload_view(old(state).reload_queue@)
        },
        final(state).logs_to_broadcast == old(state).logs_to_broadcast,
        final(state).cached_commands == old(state).cached_commands,
{
    let mut out: Vec<char> = Vec::new();
    if str_eq(cmd, "reload") {
        let ghost before = reload_view(state.reload_queue@);
        if args.len() == 0 {
            state.reload_queue.push(None);
            assert(reload_view(state.reload_queue@) =~= before.push(None));
            push_text(&mut out, "Core: Reloading all plugins...");
        } else {
            state.reload_queue.push(Some(args[0].clone()));
            assert(reload_view(state.reload_queue@) =~= before.push(Some(args@[0]@)));
            push_text(&mut out, "Core: Reloading '");
            push_text(&mut out, args[0].as_str());
            push_text(&mut out, "'...");
        }
    } else if str_eq(cmd, "help") {
        push_text(&mut out, "=== AVAILABLE COMMANDS ===\n");
        push_text(&mut out, ">>> help               - Show this help menu\n");
        push_text(&mut out, ">>> reload [plugin]    - Reload one or all plugins\n");
        let ghost head = out@;
        let ghost cmds = commands_view(state.cached_commands@);
        let mut i: usize = 0;
        assert(cmds.take(0) =~= Seq::<(Seq<char>, Seq<char>)>::empty());
        while i < state.cached_commands.len()
            invariant
                i <= state.cached_commands@.len(),
                cmds == commands_view(state.cached_commands@),
                out@ == head + help_lines(cmds.take(i as int)),
            decreases state.cached_commands@.len() - i,
        {
            let (name, help) = &state.cached_commands[i];
            let ghost before = out@;
            push_text(&mut out, "  ");
            push_text(&mut out, name.as_str());
            let name_len = name.as_str().unicode_len();
            let mut pad = name_len;
            while pad < 18
                invariant
                    name_len == name@.len(),
                    name_len <= pad <= 18 || (name_len > 18 && pad == name_len),
                    out@ == before + "  "@ + name@ + Seq::new((pad - name_len) as nat, |k: int| ' '),
                decreases 18 - pad,
            {
                out.push(' ');
                assert(Seq::new((pad + 1 - name_len) as nat, |k: int| ' ') =~= Seq::new(
                    (pad - name_len) as nat,
                    |k: int| ' ',
                ).push(' '));
                pad = pad + 1;
            }
            assert(before + "  "@ + name@ + Seq::new((pad - name_len) as nat, |k: int| ' ') =~= before
                + "  "@ + padded(name@, 18));
            push_text(&mut out, " - ");
            push_text(&mut out, help.as_str());
            push_text(&mut out, "\n");
            assert(cmds.take(i + 1).drop_last() =~= cmds.take(i as int));
            assert(cmds[i as int] == (name@, help@));
            assert(out@ =~= head + help_lines(cmds.take(i + 1)));
            i = i + 1;
        }
        assert(cmds.take(i as int) =~= cmds);
    } else {
        push_text(&mut out, "Unknown command: ");
        push_text(&mut out, cmd);
        push_text(&mut out, ". See available commands with 'help'.");
    }
    let reply = string_of_range(&out, 0, out.len());
    assert(out@.subrange(0, out@.len() as int) =~= out@);
    reply
}

} // verus!
