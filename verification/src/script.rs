//! The script compiler: assembles the agent shell script from labelled
//! sections, with exact shell escaping for the embedded environment.

use vstd::prelude::*;
use crate::context::{BuildContext, VarView};
use crate::names::CommandName;
use crate::phases::{phase_name_spec, phase_upper_name_spec, phase_sequence_spec, DebugOptions, Phases};
use crate::registry::{CommandView, Input, InputView};
use crate::strutil::{find_char_spec, starts_with_spec, starts_with_str, find_char};

verus! {

/// How one character is written inside a double-quoted shell word:
/// backslash and double quote get a backslash, all else stays.
pub open spec fn esc_char(c: char) -> Seq<char> {
    if c == '\\' {
        seq!['\\', '\\']
    } else if c == '"' {
        seq!['\\', c]
    } else {
        seq![c]
    }
}

pub open spec fn escape_spec(s: Seq<char>) -> Seq<char>
    decreases s.len(),
{
    if s.len() == 0 {
        Seq::empty()
    } else {
        escape_spec(s.drop_last()) + esc_char(s.last())
    }
}

/// Escapes a string for embedding between double quotes in the script:
/// every `\` becomes `\\`, every `"` becomes `\"`, all else is unchanged.
pub fn escape(input: &str) -> (r: String)
    ensures
        r@ == escape_spec(input@),
{
    let n = input.unicode_len();
    let mut r = String::new();
    let mut i: usize = 0;
    while i < n
        invariant
            n == input@.len(),
            i <= n,
            r@ == escape_spec(input@.subrange(0, i as int)),
        decreases n - i,
    {
        let c = input.get_char(i);
        if c == '\\' {
            r.push('\\');
            r.push('\\');
        } else if c == '"' {
            r.push('\\');
            r.push(c);
        } else {
            r.push(c);
        }
        proof {
            let pre = input@.subrange(0, i as int);
            let cur = input@.subrange(0, i as int + 1);
            assert(cur.drop_last() =~= pre);
            assert(cur.last() == input@[i as int]);
            assert(r@ =~= escape_spec(pre) + esc_char(input@[i as int]));
        }
        i += 1;
    }
    proof {
        assert(input@.subrange(0, n as int) =~= input@);
    }
    r
}

/// How a POSIX shell reads the inside of a double-quoted word: a backslash
/// keeps its meaning only before `$`, `` ` ``, `"` or `\`; any other
/// character stands for itself; a bare `"` ends the word early, which is
/// reported as a failed parse of the full text.
pub open spec fn dquote_unescape(s: Seq<char>) -> Option<Seq<char>>
    decreases s.len(),
{
    if s.len() == 0 {
        Some(Seq::empty())
    } else if s[0] == '\\' && s.len() >= 2 && (s[1] == '\\' || s[1] == '"' || s[1] == '$' || s[1]
        == '`') {
        match dquote_unescape(s.subrange(2, s.len() as int)) {
            Some(rest) => Some(seq![s[1]] + rest),
            None => None,
        }
    } else if s[0] == '"' {
        None
    } else {
        match dquote_unescape(s.drop_first()) {
            Some(rest) => Some(seq![s[0]] + rest),
            None => None,
        }
    }
}

/// Escaping from the front, for the round-trip induction.
proof fn lemma_escape_unfold_front(s: Seq<char>)
    requires
        s.len() > 0,
    ensures
        escape_spec(s) == esc_char(s[0]) + escape_spec(s.drop_first()),
    decreases s.len(),
{
    if s.len() == 1 {
        assert(s.drop_last() =~= Seq::<char>::empty());
        assert(s.drop_first() =~= Seq::<char>::empty());
        assert(escape_spec(s) =~= esc_char(s[0]) + escape_spec(s.drop_first()));
    } else {
        lemma_escape_unfold_front(s.drop_last());
        assert(s.drop_last()[0] == s[0]);
        assert(s.drop_first().drop_last() =~= s.drop_last().drop_first());
        assert(s.drop_first().last() == s.last());
        assert(escape_spec(s.drop_first()) == escape_spec(s.drop_first().drop_last()) + esc_char(
            s.drop_first().last(),
        ));
        assert(escape_spec(s) =~= esc_char(s[0]) + escape_spec(s.drop_first()));
    }
}

/// The double-quoted wrapping round-trips: a POSIX double-quote parser
/// never finds a word-ending quote inside the escaped text, and reads it
/// back to the original.
pub proof fn lemma_escape_round_trip(s: Seq<char>)
    ensures
        dquote_unescape(escape_spec(s)) == Some(s),
    decreases s.len(),
{
    if s.len() == 0 {
        assert(dquote_unescape(escape_spec(s)) == Some(s)) by {
            assert(escape_spec(s).len() == 0);
            assert(s =~= Seq::<char>::empty());
        }
    } else {
        lemma_escape_round_trip(s.drop_first());
        lemma_escape_unfold_front(s);
        let e = escape_spec(s);
        let c = s[0];
        let rest = escape_spec(s.drop_first());
        if c == '\\' {
            assert(e =~= seq!['\\', '\\'] + rest);
            assert(e[0] == '\\' && e[1] == '\\');
            assert(e.subrange(2, e.len() as int) =~= rest);
            assert(seq![c] + s.drop_first() =~= s);
            assert(dquote_unescape(e) == Some(s));
        } else if c == '"' {
            assert(e =~= seq!['\\', '"'] + rest);
            assert(e.subrange(2, e.len() as int) =~= rest);
            assert(seq![c] + s.drop_first() =~= s);
            assert(dquote_unescape(e) == Some(s));
        } else {
            assert(e =~= seq![c] + rest);
            assert(e[0] == c && c != '\\' && c != '"');
            assert(e.drop_first() =~= rest);
            assert(seq![c] + s.drop_first() =~= s);
            assert(dquote_unescape(e) == Some(s));
        }
    }
}

/// A snippet's shebang line is dropped when it is embedded in a section.
pub open spec fn strip_shebang(s: Seq<char>) -> Seq<char> {
    if starts_with_spec(s, "#!/usr/bin/sh"@) || starts_with_spec(s, "#!/bin/sh"@) {
        match find_char_spec(s, '\n') {
            Some(i) => s.subrange(i + 1, s.len() as int),
            None => Seq::empty(),
        }
    } else {
        s
    }
}

/// The text of one labelled section: the contents between `### <name>` and
/// `### </name>` markers, given a final newline when it lacks one.
pub open spec fn section_text(name: Seq<char>, contents: Seq<char>) -> Seq<char> {
    let body = "### <"@ + name + ">\n"@ + contents;
    let closed = if body.last() == '\n' {
        body
    } else {
        body + "\n"@
    };
    closed + "### </"@ + name + ">\n\n"@
}

/// One labelled script section being assembled.
pub struct Section {
    name: String,
    contents: String,
}

impl Section {
    pub closed spec fn name_view(&self) -> Seq<char> {
        self.name@
    }

    pub closed spec fn contents_view(&self) -> Seq<char> {
        self.contents@
    }

    pub fn new(name: &str) -> (r: Section)
        ensures
            r.name_view() == name@,
            r.contents_view() == Seq::<char>::empty(),
    {
        Section { name: name.to_owned(), contents: String::new() }
    }

    /// Appends a snippet, dropping its shebang line if it carries one.
    pub fn push_str(&mut self, rhs: &str)
        ensures
            final(self).name_view() == old(self).name_view(),
            final(self).contents_view() == old(self).contents_view() + strip_shebang(rhs@),
    {
        proof {
            reveal_strlit("#!/usr/bin/sh");
            reveal_strlit("#!/bin/sh");
        }
        let n = rhs.unicode_len();
        if starts_with_str(rhs, "#!/usr/bin/sh") || starts_with_str(rhs, "#!/bin/sh") {
            match find_char(rhs, '\n') {
                Some(i) => {
                    let rest = rhs.substring_char(i + 1, n);
                    proof {
                        assert(rest@ =~= rhs@.subrange(
                            find_char_spec(rhs@, '\n')->Some_0 + 1,
                            rhs@.len() as int,
                        ));
                    }
                    self.contents.append(rest);
                },
                None => (),
            }
        } else {
            self.contents.append(rhs);
        }
    }

    /// Closes the section and hands back its text.
    pub fn extract(self) -> (r: String)
        ensures
            r@ == section_text(self.name_view(), self.contents_view()),
    {
        let ghost body = "### <"@ + self.name@ + ">\n"@ + self.contents@;
        let mut r = "### <".to_owned();
        r.append(self.name.as_str());
        r.append(">\n");
        r.append(self.contents.as_str());
        proof {
            reveal_strlit("### <");
            reveal_strlit(">\n");
            assert(r@ =~= body);
            assert(r@.len() > 0);
        }
        let rn = r.unicode_len();
        if r.get_char(rn - 1) != '\n' {
            r.push('\n');
        }
        let ghost closed = if body.last() == '\n' {
            body
        } else {
            body + "\n"@
        };
        proof {
            reveal_strlit("\n");
            assert(body.last() == body[body.len() - 1]);
            if body.last() == '\n' {
                assert(r@ == body);
            } else {
                assert(r@ =~= body + "\n"@);
            }
            assert(r@ == closed);
        }
        r.append("### </");
        r.append(self.name.as_str());
        r.append(">\n\n");
        proof {
            assert(r@ =~= closed + "### </"@ + self.name@ + ">\n\n"@);
        }
        r
    }
}

/// The fixed script preamble: the protocol emitters and status helpers.
/// The agent invokes the script with the command prefix and the phase as
/// its two arguments.
pub const HEADER_SNIPPET: &'static str = "COMMAND_PREFIX=\"${1}\"; shift\nCURRENT_PHASE=\"${1}\"; shift\nstatus() { echo \"${COMMAND_PREFIX}: STATUS ${*}\"; }\npush_status() { echo \"${COMMAND_PREFIX}: PUSH ${*}\"; }\npop_status() { echo \"${COMMAND_PREFIX}: POP\"; }\nset_var() { echo \"${COMMAND_PREFIX}: SET ${*}\"; }\nset_var_ro() { echo \"${COMMAND_PREFIX}: SET_RO ${*}\"; }\nadd_dependency() { echo \"${COMMAND_PREFIX}: ADD_DEPENDENCY ${*}\"; }\n";

/// The fixed snippet run just before the starting command.
pub const PRE_COMMAND_SNIPPET: &'static str = "status \"Running ${CURRENT_PHASE}\"\n";

/// The fixed postamble.
pub const FOOTER_SNIPPET: &'static str = "status \"Finished ${CURRENT_PHASE}\"\n";

/// A snippet that does not open with `#` is kept as it stands.
proof fn lemma_no_shebang(s: Seq<char>)
    requires
        s.len() > 0,
        s[0] != '#',
    ensures
        strip_shebang(s) == s,
{
    reveal_strlit("#!/usr/bin/sh");
    reveal_strlit("#!/bin/sh");
    if starts_with_spec(s, "#!/usr/bin/sh"@) {
        assert(s.subrange(0, 13)[0] == '#');
    }
    if starts_with_spec(s, "#!/bin/sh"@) {
        assert(s.subrange(0, 9)[0] == '#');
    }
}

/// The script line defining one phase constant.
pub open spec fn phase_def_line(p: Phases) -> Seq<char> {
    "PHASE_"@ + phase_upper_name_spec(p) + "=\""@ + phase_name_spec(p) + "\"\nreadonly PHASE_"@
        + phase_upper_name_spec(p) + "\n"@
}

pub open spec fn phase_defs_text(ps: Seq<Phases>) -> Seq<char>
    decreases ps.len(),
{
    if ps.len() == 0 {
        Seq::empty()
    } else {
        phase_defs_text(ps.drop_last()) + phase_def_line(ps.last())
    }
}

/// The binding line for one declared input of a command.
pub open spec fn input_line(i: InputView) -> Seq<char> {
    "    "@ + i.name + "=\"${1}\"; shift"@ + (if i.optional {
        " || true"@
    } else {
        Seq::<char>::empty()
    }) + "\n"@
}

pub open spec fn input_lines(inputs: Seq<InputView>) -> Seq<char>
    decreases inputs.len(),
{
    if inputs.len() == 0 {
        Seq::empty()
    } else {
        input_lines(inputs.drop_last()) + input_line(inputs.last())
    }
}

/// The shell function defining one command: a status frame around the
/// bound inputs and the command's own script.
pub open spec fn command_def_text(name: Seq<char>, c: CommandView) -> Seq<char> {
    name + "() {\n    push_status \""@ + name + "\"\n"@ + input_lines(c.inputs) + "\n"@ + c.script
        + "\n    pop_status\n}\n\n"@
}

pub open spec fn command_defs_text(reg: Seq<(Seq<char>, CommandView)>) -> Seq<char>
    decreases reg.len(),
{
    if reg.len() == 0 {
        Seq::empty()
    } else {
        command_defs_text(reg.drop_last()) + command_def_text(reg.last().0, reg.last().1)
    }
}

/// The assignment lines for one context variable: nothing for an internal
/// one, the escaped value otherwise, plus a `readonly` for a read-only one.
pub open spec fn env_line(v: VarView) -> Seq<char> {
    if v.internal {
        Seq::empty()
    } else {
        v.name + "=\""@ + escape_spec(v.value) + "\"\n"@ + (if v.read_only {
            "readonly "@ + v.name + "\n"@
        } else {
            Seq::<char>::empty()
        })
    }
}

pub open spec fn sysenv_text(vs: Seq<VarView>) -> Seq<char>
    decreases vs.len(),
{
    if vs.len() == 0 {
        Seq::empty()
    } else {
        sysenv_text(vs.drop_last()) + env_line(vs.last())
    }
}

pub fn script_add_header() -> (r: Section)
    ensures
        r.name_view() == "header"@,
        r.contents_view() == strip_shebang(HEADER_SNIPPET@),
{
    let mut section = Section::new("header");
    section.push_str(HEADER_SNIPPET);
    section
}

pub fn script_add_phase_definitions() -> (r: Section)
    ensures
        r.name_view() == "phase definitions"@,
        r.contents_view() == phase_defs_text(phase_sequence_spec()),
{
    let mut section = Section::new("phase definitions");
    let phases = Phases::iter();
    let mut i: usize = 0;
    while i < phases.len()
        invariant
            phases@ == phase_sequence_spec(),
            i <= phases@.len(),
            section.name_view() == "phase definitions"@,
            section.contents_view() == phase_defs_text(phases@.subrange(0, i as int)),
        decreases phases@.len() - i,
    {
        let p = phases[i];
        let mut line = "PHASE_".to_owned();
        line.append(p.upper_name());
        line.append("=\"");
        line.append(p.name());
        line.append("\"\nreadonly PHASE_");
        line.append(p.upper_name());
        line.append("\n");
        proof {
            reveal_strlit("PHASE_");
            reveal_strlit("=\"");
            reveal_strlit("\"\nreadonly PHASE_");
            reveal_strlit("\n");
            assert(line@ =~= phase_def_line(phases@[i as int]));
            assert(line@[0] == 'P');
            lemma_no_shebang(line@);
            assert(phases@.subrange(0, i as int + 1).drop_last() =~= phases@.subrange(0, i as int));
        }
        section.push_str(line.as_str());
        i += 1;
    }
    proof {
        assert(phases@.subrange(0, phases@.len() as int) =~= phases@);
    }
    section
}

pub fn script_add_command_definitions(ctx: &BuildContext) -> (r: Section)
    requires
        ctx.commands.wf(),
    ensures
        r.name_view() == "command definition"@,
        r.contents_view() == command_defs_text(ctx.commands.reg()),
{
    let mut section = Section::new("command definition");
    let commands = ctx.commands.commands();
    let ghost reg = ctx.commands.reg();
    let mut i: usize = 0;
    while i < commands.len()
        invariant
            crate::registry::entries_view(commands@) == reg,
            crate::registry::reg_valid_names(reg),
            reg.len() == commands@.len(),
            i <= commands@.len(),
            section.name_view() == "command definition"@,
            section.contents_view() == command_defs_text(reg.subrange(0, i as int)),
        decreases commands@.len() - i,
    {
        let (name, cmd) = &commands[i];
        let ghost cv = reg[i as int].1;
        let mut text = name.as_str().to_owned();
        text.append("() {\n    push_status \"");
        text.append(name.as_str());
        text.append("\"\n");
        let inputs = cmd.inputs();
        let ghost ivs = cv.inputs;
        let mut j: usize = 0;
        while j < inputs.len()
            invariant
                inputs@.map_values(|x: Input| x.view()) == ivs,
                ivs.len() == inputs@.len(),
                j <= inputs@.len(),
                text@ == name@ + "() {\n    push_status \""@ + name@ + "\"\n"@ + input_lines(
                    ivs.subrange(0, j as int),
                ),
            decreases inputs@.len() - j,
        {
            let input = &inputs[j];
            text.append("    ");
            let iname = input.name();
            text.append(iname.as_str());
            text.append("=\"${1}\"; shift");
            if input.optional() {
                text.append(" || true");
            }
            text.append("\n");
            proof {
                reveal_strlit("    ");
                reveal_strlit("=\"${1}\"; shift");
                reveal_strlit(" || true");
                reveal_strlit("\n");
                assert(ivs.subrange(0, j as int + 1).drop_last() =~= ivs.subrange(0, j as int));
                assert(text@ =~= name@ + "() {\n    push_status \""@ + name@ + "\"\n"@
                    + input_lines(ivs.subrange(0, j as int)) + input_line(ivs[j as int]));
            }
            j += 1;
        }
        proof {
            assert(ivs.subrange(0, ivs.len() as int) =~= ivs);
        }
        text.append("\n");
        text.append(cmd.script());
        text.append("\n    pop_status\n}\n\n");
        proof {
            reveal_strlit("() {\n    push_status \"");
            reveal_strlit("\"\n");
            reveal_strlit("\n");
            reveal_strlit("\n    pop_status\n}\n\n");
            assert(cv.script == cmd.view().script);
            assert(text@ =~= command_def_text(name@, cv));
            assert(crate::names::valid_command_name(name@));
            assert(text@[0] == name@[0]);
            assert(name@[0] != '#') by {
                assert(crate::names::is_lower_char(name@[0]) || name@[0] == '_');
            }
            lemma_no_shebang(text@);
            assert(reg.subrange(0, i as int + 1).drop_last() =~= reg.subrange(0, i as int));
            assert(reg[i as int] == (name@, cv));
        }
        section.push_str(text.as_str());
        i += 1;
    }
    proof {
        assert(reg.subrange(0, reg.len() as int) =~= reg);
    }
    section
}

pub fn script_add_system_environment(ctx: &BuildContext) -> (r: Section)
    requires
        ctx.wf(),
    ensures
        r.name_view() == "system environment"@,
        r.contents_view() == sysenv_text(ctx.vars().seq_view()),
{
    let mut section = Section::new("system environment");
    let entries = ctx.iter();
    let ghost vs = ctx.vars().seq_view();
    let mut i: usize = 0;
    while i < entries.len()
        invariant
            ctx.wf(),
            vs == ctx.vars().seq_view(),
            entries@.len() == vs.len(),
            forall|k: int|
                0 <= k < entries@.len() ==> {
                    let e = #[trigger] entries@[k];
                    e.name@ == vs[k].name && e.value@ == vs[k].value && e.is_read_only
                        == vs[k].read_only && e.is_internal == vs[k].internal
                },
            i <= entries@.len(),
            section.name_view() == "system environment"@,
            section.contents_view() == sysenv_text(vs.subrange(0, i as int)),
        decreases entries@.len() - i,
    {
        let e = &entries[i];
        proof {
            assert(vs.subrange(0, i as int + 1).drop_last() =~= vs.subrange(0, i as int));
            assert(crate::names::valid_context_name(vs[i as int].name));
        }
        if !e.is_internal {
            let value = escape(e.value.as_str());
            let mut line = e.name.clone();
            line.append("=\"");
            line.append(value.as_str());
            line.append("\"\n");
            if e.is_read_only {
                line.append("readonly ");
                line.append(e.name.as_str());
                line.append("\n");
            }
            proof {
                reveal_strlit("=\"");
                reveal_strlit("\"\n");
                reveal_strlit("readonly ");
                reveal_strlit("\n");
                assert(line@ =~= env_line(vs[i as int]));
                assert(line@[0] == vs[i as int].name[0]);
                assert(vs[i as int].name[0] != '#') by {
                    let c = vs[i as int].name[0];
                    assert(crate::names::is_upper_char(c) || crate::names::is_digit_char(c) || c
                        == '_');
                }
                lemma_no_shebang(line@);
            }
            section.push_str(line.as_str());
        } else {
            proof {
                assert(env_line(vs[i as int]) =~= Seq::<char>::empty());
                assert(section.contents_view() + env_line(vs[i as int]) =~= section.contents_view());
            }
        }
        i += 1;
    }
    proof {
        assert(vs.subrange(0, vs.len() as int) =~= vs);
    }
    section
}

pub fn script_add_pre_command() -> (r: Section)
    ensures
        r.name_view() == "pre_command"@,
        r.contents_view() == strip_shebang(PRE_COMMAND_SNIPPET@),
{
    let mut section = Section::new("pre_command");
    section.push_str(PRE_COMMAND_SNIPPET);
    section
}

pub fn script_add_command(start_command: &CommandName) -> (r: Section)
    requires
        start_command.wf(),
    ensures
        r.name_view() == "command"@,
        r.contents_view() == start_command@,
{
    let mut section = Section::new("command");
    proof {
        start_command.lemma_wf();
        assert(start_command@[0] != '#') by {
            assert(crate::names::is_lower_char(start_command@[0]) || start_command@[0] == '_');
        }
        lemma_no_shebang(start_command@);
    }
    section.push_str(start_command.as_str());
    section
}

pub fn script_add_footer() -> (r: Section)
    ensures
        r.name_view() == "footer"@,
        r.contents_view() == strip_shebang(FOOTER_SNIPPET@),
{
    let mut section = Section::new("footer");
    section.push_str(FOOTER_SNIPPET);
    section
}

/// The whole agent script for one build context and starting command.
pub open spec fn script_text(
    trace: bool,
    reg: Seq<(Seq<char>, CommandView)>,
    vars: Seq<VarView>,
    start: Seq<char>,
) -> Seq<char> {
    "#!/bin/sh -e\n"@ + (if trace {
        "set -x\n"@
    } else {
        Seq::<char>::empty()
    }) + section_text("header"@, strip_shebang(HEADER_SNIPPET@)) + section_text(
        "phase definitions"@,
        phase_defs_text(phase_sequence_spec()),
    ) + section_text("command definition"@, command_defs_text(reg)) + section_text(
        "system environment"@,
        sysenv_text(vars),
    ) + section_text("pre_command"@, strip_shebang(PRE_COMMAND_SNIPPET@)) + section_text(
        "command"@,
        start,
    ) + section_text("footer"@, strip_shebang(FOOTER_SNIPPET@))
}

/// Compiles the agent script. The caller writes the text to
/// `<scratch>/script.sh` and, under the script-echo debug option, hands it
/// to the log sink.
pub fn create_script(ctx: &BuildContext, start_command: &CommandName) -> (r: String)
    requires
        ctx.wf(),
        ctx.commands.wf(),
        start_command.wf(),
    ensures
        r@ == script_text(
            ctx.debug_options@.contains(DebugOptions::TraceAgentScript),
            ctx.commands.reg(),
            ctx.vars().seq_view(),
            start_command@,
        ),
{
    let mut contents = "#!/bin/sh -e\n".to_owned();
    if ctx.check_debug_option(&DebugOptions::TraceAgentScript) {
        contents.append("set -x\n");
    }
    let s1 = script_add_header().extract();
    contents.append(s1.as_str());
    let s2 = script_add_phase_definitions().extract();
    contents.append(s2.as_str());
    let s3 = script_add_command_definitions(ctx).extract();
    contents.append(s3.as_str());
    let s4 = script_add_system_environment(ctx).extract();
    contents.append(s4.as_str());
    let s5 = script_add_pre_command().extract();
    contents.append(s5.as_str());
    let s6 = script_add_command(start_command).extract();
    contents.append(s6.as_str());
    let s7 = script_add_footer().extract();
    contents.append(s7.as_str());
    proof {
        assert(contents@ =~= script_text(
            ctx.debug_options@.contains(DebugOptions::TraceAgentScript),
            ctx.commands.reg(),
            ctx.vars().seq_view(),
            start_command@,
        ));
    }
    contents
}

} // verus!
