//! The agent protocol: `PREFIX: VERB ARGS` lines on the child's stdout
//! mutate the build context; anything else passes through.

use vstd::prelude::*;
use crate::context::{BuildContext, VarView};
use crate::errors::Error;
use crate::names::{
    valid_command_name, valid_context_name, valid_variable_name, CommandName, VariableName,
};
use crate::printer::Headline;
use crate::strutil::{
    find_char, find_char_spec, starts_with_spec, starts_with_str, trim_spec, trim_str, unquote,
    unquote_spec,
};

verus! {

/// An argument as the protocol reads it: whitespace-trimmed, then one pair
/// of surrounding double quotes removed.
pub open spec fn clean_arg(s: Seq<char>) -> Seq<char> {
    unquote_spec(trim_spec(s))
}

fn clean(s: &str) -> (r: &str)
    ensures
        r@ == clean_arg(s@),
{
    unquote(trim_str(s))
}

/// What a `SET` or `SET_RO` payload does to the variable map and the error
/// count: a missing `=`, an invalid name or a read-only target count one
/// error and change nothing; otherwise the variable is written.
pub open spec fn set_effect(
    m0: Map<Seq<char>, VarView>,
    m1: Map<Seq<char>, VarView>,
    e0: u64,
    e1: u64,
    payload: Seq<char>,
    read_only: bool,
) -> bool {
    match find_char_spec(payload, '=') {
        None => m1 == m0 && e1 == e0 + 1,
        Some(i) => {
            let k = clean_arg(payload.subrange(0, i));
            let v = clean_arg(payload.subrange(i + 1, payload.len() as int));
            if valid_context_name(k) && !(m0.contains_key(k) && m0[k].read_only) {
                &&& m1 == m0.insert(
                    k,
                    VarView {
                        name: k,
                        value: v,
                        read_only: read_only,
                        internal: false,
                        inherit: false,
                    },
                )
                &&& e1 == e0
            } else {
                m1 == m0 && e1 == e0 + 1
            }
        },
    }
}

/// What an `ADD_DEPENDENCY` payload does to the dependency list and the
/// error count.
pub open spec fn dep_effect(
    d0: Seq<(Seq<char>, Seq<char>)>,
    d1: Seq<(Seq<char>, Seq<char>)>,
    e0: u64,
    e1: u64,
    payload: Seq<char>,
) -> bool {
    match find_char_spec(payload, '=') {
        None => d1 == d0 && e1 == e0 + 1,
        Some(i) => {
            let k = clean_arg(payload.subrange(0, i));
            let v = clean_arg(payload.subrange(i + 1, payload.len() as int));
            if valid_variable_name(k) && valid_command_name(v) && !(exists|j: int|
                0 <= j < d0.len() && (#[trigger] d0[j]).0 == k) {
                d1 == d0.push((k, v)) && e1 == e0
            } else {
                d1 == d0 && e1 == e0 + 1
            }
        },
    }
}

fn handle_set(cmd: &str, ctx: &mut BuildContext, read_only: bool) -> (r: Result<bool, Error>)
    requires
        old(ctx).wf(),
    ensures
        final(ctx).wf(),
        final(ctx).commands == old(ctx).commands,
        final(ctx).printer == old(ctx).printer,
        final(ctx).deps_view() == old(ctx).deps_view(),
        ({
            let verb = if read_only {
                "SET_RO "@
            } else {
                "SET "@
            };
            &&& !starts_with_spec(cmd@, verb) ==> (r == Ok::<bool, Error>(false) && final(ctx).vars().as_map() == old(ctx).vars().as_map())
            &&& starts_with_spec(cmd@, verb) ==> {
                let payload = cmd@.subrange(verb.len() as int, cmd@.len() as int);
                match find_char_spec(payload, '=') {
                    None => r is Err && final(ctx).vars().as_map() == old(ctx).vars().as_map(),
                    Some(i) => {
                        let k = clean_arg(payload.subrange(0, i));
                        let v = clean_arg(payload.subrange(i + 1, payload.len() as int));
                        if valid_context_name(k) && !(old(ctx).vars().as_map().contains_key(k)
                            && old(ctx).vars().as_map()[k].read_only) {
                            &&& r == Ok::<bool, Error>(true)
                            &&& final(ctx).vars().as_map() == old(ctx).vars().as_map().insert(
                                k,
                                VarView {
                                    name: k,
                                    value: v,
                                    read_only: read_only,
                                    internal: false,
                                    inherit: false,
                                },
                            )
                        } else {
                            r is Err && final(ctx).vars().as_map() == old(ctx).vars().as_map()
                        }
                    },
                }
            }
        }),
{
    let n = cmd.unicode_len();
    let verb: &str = if read_only {
        "SET_RO "
    } else {
        "SET "
    };
    let verb_len: usize = if read_only {
        7
    } else {
        4
    };
    proof {
        reveal_strlit("SET ");
        reveal_strlit("SET_RO ");
    }
    if !starts_with_str(cmd, verb) {
        return Ok(false);
    }
    let payload = cmd.substring_char(verb_len, n);
    proof {
        assert(payload@ =~= cmd@.subrange(verb_len as int, cmd@.len() as int));
    }
    let pn = payload.unicode_len();
    match find_char(payload, '=') {
        None => Err(Error::MalformedArgs { args: payload.to_owned() }),
        Some(i) => {
            let k_raw = payload.substring_char(0, i);
            let v_raw = payload.substring_char(i + 1, pn);
            let k = clean(k_raw);
            let v = clean(v_raw);
            match ctx.set(k, v, read_only, false) {
                Ok(_) => Ok(true),
                Err(e) => Err(e),
            }
        },
    }
}

fn handle_add_dependency(cmd: &str, ctx: &mut BuildContext) -> (r: Result<bool, Error>)
    requires
        old(ctx).wf(),
    ensures
        final(ctx).wf(),
        final(ctx).commands == old(ctx).commands,
        final(ctx).printer == old(ctx).printer,
        final(ctx).vars().as_map() == old(ctx).vars().as_map(),
        !starts_with_spec(cmd@, "ADD_DEPENDENCY "@) ==> (r == Ok::<bool, Error>(false) && final(ctx).deps_view() == old(ctx).deps_view()),
        starts_with_spec(cmd@, "ADD_DEPENDENCY "@) ==> {
            let payload = cmd@.subrange("ADD_DEPENDENCY "@.len() as int, cmd@.len() as int);
            match find_char_spec(payload, '=') {
                None => r is Err && final(ctx).deps_view() == old(ctx).deps_view(),
                Some(i) => {
                    let k = clean_arg(payload.subrange(0, i));
                    let v = clean_arg(payload.subrange(i + 1, payload.len() as int));
                    if valid_variable_name(k) && valid_command_name(v) && !(exists|j: int|
                        0 <= j < old(ctx).deps_view().len() && (#[trigger] old(ctx).deps_view()[j]).0 == k) {
                        r == Ok::<bool, Error>(true) && final(ctx).deps_view() == old(ctx).deps_view().push((k, v))
                    } else {
                        r is Err && final(ctx).deps_view() == old(ctx).deps_view()
                    }
                },
            }
        },
{
    let n = cmd.unicode_len();
    proof {
        reveal_strlit("ADD_DEPENDENCY ");
        assert("ADD_DEPENDENCY "@.len() == 15);
    }
    if !starts_with_str(cmd, "ADD_DEPENDENCY ") {
        return Ok(false);
    }
    let payload = cmd.substring_char(15, n);
    proof {
        assert(payload@ =~= cmd@.subrange(15int, cmd@.len() as int));
    }
    let pn = payload.unicode_len();
    match find_char(payload, '=') {
        None => Err(Error::MalformedArgs { args: payload.to_owned() }),
        Some(i) => {
            let k_raw = payload.substring_char(0, i);
            let v_raw = payload.substring_char(i + 1, pn);
            let key = match VariableName::parse_value(clean(k_raw)) {
                Ok(kn) => kn,
                Err(e) => {
                    return Err(e);
                },
            };
            let value = match CommandName::parse_value(clean(v_raw)) {
                Ok(cn) => cn,
                Err(e) => {
                    return Err(e);
                },
            };
            match ctx.add_dependency(key, value) {
                Ok(_) => Ok(true),
                Err(e) => Err(e),
            }
        },
    }
}

/// Handles one line of child stdout. A line not bearing the command prefix
/// is not handled and changes nothing; a prefixed line is always handled:
/// its verb is applied to the context, and any protocol error counts one
/// error on the log sink instead of aborting the phase.
pub fn parse_stdout(
    m: &str,
    command_prefix: &str,
    ctx: &mut BuildContext,
    current_status: &mut Option<Headline>,
) -> (r: bool)
    requires
        old(ctx).wf(),
        old(ctx).printer.errors() < u64::MAX,
        (*old(current_status)) is Some ==> old(ctx).printer.headlines_view().len() > 0,
    ensures
        final(ctx).wf(),
        final(ctx).commands == old(ctx).commands,
        final(ctx).printer.level() == old(ctx).printer.level(),
        r == starts_with_spec(m@, command_prefix@),
        (*final(current_status)) is Some ==> final(ctx).printer.headlines_view().len() > 0,
        !r ==> (*final(ctx) == *old(ctx) && *final(current_status) == *old(current_status)),
        r ==> ({
            let cmd = m@.subrange(command_prefix@.len() as int, m@.len() as int);
            let m0 = old(ctx).vars().as_map();
            let m1 = final(ctx).vars().as_map();
            let e0 = old(ctx).printer.errors();
            let e1 = final(ctx).printer.errors();
            let d0 = old(ctx).deps_view();
            let d1 = final(ctx).deps_view();
            if starts_with_spec(cmd, "SET "@) {
                &&& set_effect(m0, m1, e0, e1, cmd.subrange(4, cmd.len() as int), false)
                &&& d1 == d0
            } else if starts_with_spec(cmd, "SET_RO "@) {
                &&& set_effect(m0, m1, e0, e1, cmd.subrange(7, cmd.len() as int), true)
                &&& d1 == d0
            } else if starts_with_spec(cmd, "ADD_DEPENDENCY "@) {
                &&& dep_effect(d0, d1, e0, e1, cmd.subrange(15, cmd.len() as int))
                &&& m1 == m0
            } else if starts_with_spec(cmd, "STATUS "@) {
                &&& m1 == m0 && d1 == d0 && e1 == e0
                &&& (*final(current_status)) is Some
                &&& final(ctx).printer.headlines_view().last() == clean_arg(
                    cmd.subrange(7, cmd.len() as int),
                )
            } else if starts_with_spec(cmd, "PUSH "@) {
                &&& m1 == m0 && d1 == d0 && e1 == e0
                &&& final(ctx).printer.statuses_view() == old(ctx).printer.statuses_view().push(
                    clean_arg(cmd.subrange(5, cmd.len() as int)),
                )
                &&& *final(current_status) == *old(current_status)
            } else if cmd == "POP"@ {
                &&& m1 == m0 && d1 == d0 && e1 == e0
                &&& (old(ctx).printer.statuses_view().len() > 0 ==> final(ctx).printer.statuses_view() == old(ctx).printer.statuses_view().drop_last())
                &&& (old(ctx).printer.statuses_view().len() == 0 ==> final(ctx).printer.statuses_view() == old(ctx).printer.statuses_view())
                &&& *final(current_status) == *old(current_status)
            } else {
                &&& m1 == m0 && d1 == d0 && e1 == e0 + 1
                &&& *final(current_status) == *old(current_status)
            }
        }),
{
    proof {
        reveal_strlit("SET ");
        reveal_strlit("SET_RO ");
        reveal_strlit("ADD_DEPENDENCY ");
        reveal_strlit("STATUS ");
        reveal_strlit("PUSH ");
        reveal_strlit("POP");
    }
    if !starts_with_str(m, command_prefix) {
        return false;
    }
    let n = m.unicode_len();
    let plen = command_prefix.unicode_len();
    let cmd = m.substring_char(plen, n);
    proof {
        assert(cmd@ =~= m@.subrange(command_prefix@.len() as int, m@.len() as int));
    }
    let cn = cmd.unicode_len();
    match handle_set(cmd, ctx, false) {
        Ok(true) => {
            return true;
        },
        Ok(false) => (),
        Err(e) => {
            let _ = ctx.printer.error(e.kind());
            return true;
        },
    }
    match handle_set(cmd, ctx, true) {
        Ok(true) => {
            return true;
        },
        Ok(false) => (),
        Err(e) => {
            let _ = ctx.printer.error(e.kind());
            return true;
        },
    }
    match handle_add_dependency(cmd, ctx) {
        Ok(true) => {
            return true;
        },
        Ok(false) => (),
        Err(e) => {
            let _ = ctx.printer.error(e.kind());
            return true;
        },
    }
    if starts_with_str(cmd, "STATUS ") {
        let status = clean(cmd.substring_char(7, cn));
        proof {
            assert(cmd@.subrange(7, cmd@.len() as int)
                == cmd@.subrange("STATUS "@.len() as int, cmd@.len() as int));
        }
        if current_status.is_some() {
            ctx.printer.pop_headline();
        }
        let (hl, _lines) = ctx.printer.push_headline(status, true);
        *current_status = Some(hl);
    } else if starts_with_str(cmd, "PUSH ") {
        let status = clean(cmd.substring_char(5, cn));
        proof {
            assert(cmd@.subrange(5, cmd@.len() as int)
                == cmd@.subrange("PUSH "@.len() as int, cmd@.len() as int));
        }
        ctx.printer.push_status(status);
    } else if crate::strutil::str_eq(cmd, "POP") {
        ctx.printer.pop_status();
    } else {
        let e = Error::UnknownVerb { verb: cmd.to_owned() };
        let _ = ctx.printer.error(e.kind());
        return true;
    }
    true
}

/// Applying `SET NAME=VALUE` to a store and then reading `NAME` yields
/// `VALUE`, and applying the same `SET` a second time leaves the store
/// exactly as the first application left it.
pub proof fn lemma_set_effect_round_trip(
    m0: Map<Seq<char>, VarView>,
    m1: Map<Seq<char>, VarView>,
    m2: Map<Seq<char>, VarView>,
    e0: u64,
    e1: u64,
    e2: u64,
    payload: Seq<char>,
)
    requires
        set_effect(m0, m1, e0, e1, payload, false),
        set_effect(m1, m2, e1, e2, payload, false),
    ensures
        match find_char_spec(payload, '=') {
            Some(i) => {
                let k = clean_arg(payload.subrange(0, i));
                let v = clean_arg(payload.subrange(i + 1, payload.len() as int));
                valid_context_name(k) && !(m0.contains_key(k) && m0[k].read_only) ==> (
                m1.contains_key(k) && m1[k].value == v)
            },
            None => true,
        },
        m2 == m1,
{
    match find_char_spec(payload, '=') {
        None => {
        },
        Some(i) => {
            let k = clean_arg(payload.subrange(0, i));
            let v = clean_arg(payload.subrange(i + 1, payload.len() as int));
            if valid_context_name(k) && !(m0.contains_key(k) && m0[k].read_only) {
                let entry = VarView {
                    name: k,
                    value: v,
                    read_only: false,
                    internal: false,
                    inherit: false,
                };
                assert(m1 == m0.insert(k, entry));
                assert(m1.contains_key(k) && m1[k] == entry);
                assert(!m1[k].read_only);
                assert(m2 == m1.insert(k, entry));
                assert(m1.insert(k, entry) =~= m1);
            }
        },
    }
}

/// Relies on uuid's `Uuid::new_v4` and its `Display`: a fresh random v4
/// UUID in hyphenated form, which is always 36 ASCII characters.
#[verifier::external_body]
fn fresh_uuid_string() -> (r: String)
    ensures
        r@.len() == 36,
{
    uuid::Uuid::new_v4().to_string()
}

/// A fresh per-run protocol identity: the bare UUID the agent is invoked
/// with, and the `UUID: ` form its control lines carry on stdout, which
/// the orchestrator strips. Recipe output lines almost surely never start
/// with the prefix, so control lines and plain output share one stream
/// without framing collisions.
pub fn new_command_prefix() -> (r: (String, String))
    ensures
        r.0@.len() == 36,
        r.1@ == r.0@ + ": "@,
        r.1@.len() == 38,
{
    let uuid = fresh_uuid_string();
    let mut prefix = uuid.clone();
    proof {
        reveal_strlit(": ");
    }
    prefix.append(": ");
    (uuid, prefix)
}

} // verus!
