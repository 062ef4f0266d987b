//! The command registry: named build recipes with typed inputs, loaded in
//! directory order, where a later definition shadows an earlier one and
//! records what it overwrote.

use vstd::prelude::*;
use crate::errors::Error;
use crate::names::{CommandName, VariableName, valid_variable_name};

verus! {

/// One declared input of a command.
#[derive(Debug)]
pub enum Input {
    /// Just a variable name, required, without help.
    Basic(VariableName),
    /// A variable name with help text and an optional flag.
    Full { name: VariableName, help: Option<String>, optional: bool },
}

/// The ghost image of an input.
pub ghost struct InputView {
    pub name: Seq<char>,
    pub help: Option<Seq<char>>,
    pub optional: bool,
}

impl Clone for Input {
    fn clone(&self) -> (r: Self)
        ensures
            r.view() == self.view(),
    {
        match self {
            Input::Basic(name) => Input::Basic(name.clone()),
            Input::Full { name, help, optional } => Input::Full {
                name: name.clone(),
                help: match help {
                    Some(h) => Some(h.clone()),
                    None => None,
                },
                optional: *optional,
            },
        }
    }
}

impl Input {
    pub open spec fn view(&self) -> InputView {
        match self {
            Input::Basic(name) => InputView { name: name@, help: None, optional: false },
            Input::Full { name, help, optional } => InputView {
                name: name@,
                help: match help {
                    Some(h) => Some(h@),
                    None => None,
                },
                optional: *optional,
            },
        }
    }

    pub fn name(&self) -> (r: VariableName)
        ensures
            r@ == self.view().name,
    {
        match self {
            Input::Basic(name) => name.clone(),
            Input::Full { name, .. } => name.clone(),
        }
    }

    pub fn help(&self) -> (r: Option<String>)
        ensures
            match r {
                Some(h) => self.view().help == Some(h@),
                None => self.view().help is None,
            },
    {
        match self {
            Input::Basic(_) => None,
            Input::Full { help, .. } => help.clone(),
        }
    }

    pub fn optional(&self) -> (r: bool)
        ensures
            r == self.view().optional,
    {
        match self {
            Input::Basic(_) => false,
            Input::Full { optional, .. } => *optional,
        }
    }
}

/// An input as it stands in a parsed command file, not yet validated.
#[derive(Clone, Debug)]
pub enum RawInput {
    /// Only a name was given.
    Basic(String),
    /// A name with help text and an optional flag.
    Full { name: String, help: Option<String>, optional: bool },
}

impl RawInput {
    pub open spec fn name_view(&self) -> Seq<char> {
        match self {
            RawInput::Basic(name) => name@,
            RawInput::Full { name, .. } => name@,
        }
    }

    pub open spec fn help_view(&self) -> Option<Seq<char>> {
        match self {
            RawInput::Basic(_) => None,
            RawInput::Full { help, .. } => match help {
                Some(h) => Some(h@),
                None => None,
            },
        }
    }

    pub open spec fn optional_view(&self) -> bool {
        match self {
            RawInput::Basic(_) => false,
            RawInput::Full { optional, .. } => *optional,
        }
    }
}

/// A command definition as a parsed command file states it.
#[derive(Clone, Debug)]
pub struct CommandToml {
    pub help: Option<String>,
    pub inputs: Vec<RawInput>,
    pub script: String,
}

/// A loaded command definition.
#[derive(Debug)]
pub struct Command {
    help: Option<String>,
    inputs: Vec<Input>,
    /// The shell snippet the command runs.
    pub script: String,
    source_location: String,
    source: String,
    overwrote_definition_in: Vec<String>,
}

/// The ghost image of a loaded command.
pub ghost struct CommandView {
    pub help: Option<Seq<char>>,
    pub inputs: Seq<InputView>,
    pub script: Seq<char>,
    pub source_location: Seq<char>,
    pub source: Seq<char>,
    pub overwrote: Seq<Seq<char>>,
}

impl Clone for Command {
    fn clone(&self) -> (r: Self)
        ensures
            r.view() == self.view(),
    {
        let inputs = self.inputs.clone();
        let overwrote = self.overwrote_definition_in.clone();
        let r = Command {
            help: match &self.help {
                Some(h) => Some(h.clone()),
                None => None,
            },
            inputs,
            script: self.script.clone(),
            source_location: self.source_location.clone(),
            source: self.source.clone(),
            overwrote_definition_in: overwrote,
        };
        proof {
            assert(r.inputs@.map_values(|i: Input| i.view()) =~= self.inputs@.map_values(
                |i: Input| i.view(),
            ));
            assert(r.overwrote_definition_in@.map_values(|s: String| s@)
                =~= self.overwrote_definition_in@.map_values(|s: String| s@));
        }
        r
    }
}

impl Command {
    pub closed spec fn view(&self) -> CommandView {
        CommandView {
            help: match self.help {
                Some(ref h) => Some(h@),
                None => None,
            },
            inputs: self.inputs@.map_values(|i: Input| i.view()),
            script: self.script@,
            source_location: self.source_location@,
            source: self.source@,
            overwrote: self.overwrote_definition_in@.map_values(|s: String| s@),
        }
    }

    pub fn inputs(&self) -> (r: &Vec<Input>)
        ensures
            r@.map_values(|i: Input| i.view()) == self.view().inputs,
    {
        &self.inputs
    }

    pub fn help(&self) -> (r: &Option<String>)
        ensures
            match r {
                Some(h) => self.view().help == Some(h@),
                None => self.view().help is None,
            },
    {
        &self.help
    }

    pub fn script(&self) -> (r: &str)
        ensures
            r@ == self.view().script,
    {
        self.script.as_str()
    }

    pub fn dump_source(&self) -> (r: &str)
        ensures
            r@ == self.view().source,
    {
        self.source.as_str()
    }

    pub fn source_location(&self) -> (r: &str)
        ensures
            r@ == self.view().source_location,
    {
        self.source_location.as_str()
    }

    /// The locations whose definitions this command shadowed, oldest first.
    pub fn overwrote_definition_in(&self) -> (r: &Vec<String>)
        ensures
            r@.map_values(|s: String| s@) == self.view().overwrote,
    {
        &self.overwrote_definition_in
    }
}

/// The registry model: named commands in load order, names unique.
pub open spec fn reg_unique(s: Seq<(Seq<char>, CommandView)>) -> bool {
    forall|i: int, j: int|
        0 <= i < j < s.len() ==> (#[trigger] s[i].0) != (#[trigger] s[j].0)
}

pub open spec fn reg_valid_names(s: Seq<(Seq<char>, CommandView)>) -> bool {
    forall|i: int| 0 <= i < s.len() ==> crate::names::valid_command_name((#[trigger] s[i]).0)
}

/// Entries stand in strictly increasing name order, as the listing and the
/// compiled script emit them.
pub open spec fn reg_sorted(s: Seq<(Seq<char>, CommandView)>) -> bool {
    forall|i: int, j: int|
        0 <= i < j < s.len() ==> crate::strutil::lex_lt((#[trigger] s[i]).0, (#[trigger] s[j]).0)
}

pub open spec fn reg_find(s: Seq<(Seq<char>, CommandView)>, name: Seq<char>) -> Option<int> {
    if exists|i: int| 0 <= i < s.len() && s[i].0 == name {
        Some(choose|i: int| 0 <= i < s.len() && s[i].0 == name)
    } else {
        None
    }
}

/// What one load step does to the registry model: a fresh name is appended;
/// a known name is replaced in place, the new definition's overwrite chain
/// extended by the old definition's chain and location.
/// The same definition with another overwrite chain.
pub open spec fn with_overwrote(c: CommandView, o: Seq<Seq<char>>) -> CommandView {
    CommandView {
        help: c.help,
        inputs: c.inputs,
        script: c.script,
        source_location: c.source_location,
        source: c.source,
        overwrote: o,
    }
}

pub open spec fn reg_add(
    s: Seq<(Seq<char>, CommandView)>,
    name: Seq<char>,
    cmd: CommandView,
) -> Seq<(Seq<char>, CommandView)> {
    match reg_find(s, name) {
        None => s.push((name, with_overwrote(cmd, Seq::empty()))),
        Some(i) => s.update(
            i,
            (name, with_overwrote(cmd, s[i].1.overwrote.push(s[i].1.source_location))),
        ),
    }
}

pub struct CommandManagerBuilder {
    commands: Vec<(CommandName, Command)>,
}

pub struct CommandManager {
    commands: Vec<(CommandName, Command)>,
}

pub open spec fn entries_view(s: Seq<(CommandName, Command)>) -> Seq<(Seq<char>, CommandView)> {
    s.map_values(|e: (CommandName, Command)| (e.0@, e.1.view()))
}

/// Validates the parsed definition and builds the loaded command: every
/// input name must be a valid variable name.
pub fn command_from_toml(
    data: &CommandToml,
    source_location: &str,
    source: &str,
) -> (r: Result<Command, Error>)
    ensures
        r is Ok <==> (forall|i: int|
            0 <= i < data.inputs@.len() ==> valid_variable_name(
                (#[trigger] data.inputs@[i]).name_view(),
            )),
        r matches Ok(c) ==> {
            let v = c.view();
            &&& v.help == (match data.help {
                Some(ref h) => Some(h@),
                None => None::<Seq<char>>,
            })
            &&& v.inputs.len() == data.inputs@.len()
            &&& forall|i: int|
                0 <= i < v.inputs.len() ==> {
                    let input = #[trigger] v.inputs[i];
                    &&& input.name == data.inputs@[i].name_view()
                    &&& input.help == data.inputs@[i].help_view()
                    &&& input.optional == data.inputs@[i].optional_view()
                }
            &&& v.script == data.script@
            &&& v.source_location == source_location@
            &&& v.source == source@
            &&& v.overwrote == Seq::<Seq<char>>::empty()
        },
        r matches Err(e) ==> e matches Error::InvalidName { .. },
{
    let mut inputs: Vec<Input> = Vec::new();
    let mut i: usize = 0;
    while i < data.inputs.len()
        invariant
            i <= data.inputs@.len(),
            inputs@.len() == i,
            forall|j: int|
                0 <= j < i ==> valid_variable_name((#[trigger] data.inputs@[j]).name_view()),
            forall|j: int|
                0 <= j < i ==> {
                    let input = (#[trigger] inputs@[j]).view();
                    &&& input.name == data.inputs@[j].name_view()
                    &&& input.help == data.inputs@[j].help_view()
                    &&& input.optional == data.inputs@[j].optional_view()
                },
        decreases data.inputs@.len() - i,
    {
        match &data.inputs[i] {
            RawInput::Basic(name) => {
                let vn = match VariableName::parse_value(name.as_str()) {
                    Ok(vn) => vn,
                    Err(e) => {
                        return Err(e);
                    },
                };
                inputs.push(Input::Basic(vn));
            },
            RawInput::Full { name, help, optional } => {
                let vn = match VariableName::parse_value(name.as_str()) {
                    Ok(vn) => vn,
                    Err(e) => {
                        return Err(e);
                    },
                };
                inputs.push(Input::Full { name: vn, help: help.clone(), optional: *optional });
            },
        }
        i += 1;
    }
    let cmd = Command {
        help: data.help.clone(),
        inputs,
        script: data.script.clone(),
        source_location: source_location.to_owned(),
        source: source.to_owned(),
        overwrote_definition_in: Vec::new(),
    };
    proof {
        assert(cmd.view().overwrote =~= Seq::<Seq<char>>::empty());
    }
    Ok(cmd)
}

impl CommandManagerBuilder {
    pub closed spec fn reg(&self) -> Seq<(Seq<char>, CommandView)> {
        entries_view(self.commands@)
    }

    pub open spec fn wf(&self) -> bool {
        reg_unique(self.reg()) && reg_valid_names(self.reg())
    }

    /// A builder with nothing loaded; the caller seeds built-ins through
    /// [`Self::add_command_definition`].
    pub fn new() -> (r: CommandManagerBuilder)
        ensures
            r.wf(),
            r.reg() == Seq::<(Seq<char>, CommandView)>::empty(),
    {
        let r = CommandManagerBuilder { commands: Vec::new() };
        proof {
            assert(r.reg() =~= Seq::<(Seq<char>, CommandView)>::empty());
        }
        r
    }

    /// Loads one command definition, shadowing any previous one of the same
    /// name and recording the shadowed location in the overwrite chain.
    pub fn add_command_definition(
        &mut self,
        name: &CommandName,
        data: &CommandToml,
        source_location: &str,
        source: &str,
    ) -> (r: Result<(), Error>)
        requires
            old(self).wf(),
            name.wf(),
        ensures
            final(self).wf(),
            r is Ok <==> (forall|i: int|
                0 <= i < data.inputs@.len() ==> valid_variable_name(
                    (#[trigger] data.inputs@[i]).name_view(),
                )),
            r is Err ==> final(self).reg() == old(self).reg(),
            r matches Ok(_) ==> exists|cv: CommandView|
                {
                    &&& final(self).reg() == reg_add(old(self).reg(), name@, cv)
                    &&& cv.script == data.script@
                    &&& cv.source_location == source_location@
                    &&& cv.source == source@
                    &&& cv.inputs.len() == data.inputs@.len()
                    &&& forall|i: int|
                        0 <= i < cv.inputs.len() ==> {
                            let input = #[trigger] cv.inputs[i];
                            &&& input.name == data.inputs@[i].name_view()
                            &&& input.help == data.inputs@[i].help_view()
                            &&& input.optional == data.inputs@[i].optional_view()
                        }
                    &&& cv.help == (match data.help {
                        Some(ref h) => Some(h@),
                        None => None::<Seq<char>>,
                    })
                },
    {
        proof {
            name.lemma_wf();
        }
        let cmd = match command_from_toml(data, source_location, source) {
            Ok(c) => c,
            Err(e) => {
                return Err(e);
            },
        };
        let ghost cv = cmd.view();
        let ghost r0 = self.reg();
        let mut i: usize = 0;
        while i < self.commands.len()
            invariant
                old(self).wf(),
                self.commands@ == old(self).commands@,
                r0 == self.reg(),
                r0 == old(self).reg(),
                crate::names::valid_command_name(name@),
                r0.len() == self.commands@.len(),
                i <= self.commands@.len(),
                cmd.view() == cv,
                forall|j: int| 0 <= j < i ==> (#[trigger] r0[j].0) != name@,
                forall|j: int|
                    0 <= j < data.inputs@.len() ==> valid_variable_name(
                        (#[trigger] data.inputs@[j]).name_view(),
                    ),
                cv.script == data.script@,
                cv.source_location == source_location@,
                cv.source == source@,
                cv.inputs.len() == data.inputs@.len(),
                forall|j: int|
                    0 <= j < cv.inputs.len() ==> {
                        let input = #[trigger] cv.inputs[j];
                        &&& input.name == data.inputs@[j].name_view()
                        &&& input.help == data.inputs@[j].help_view()
                        &&& input.optional == data.inputs@[j].optional_view()
                    },
                cv.help == (match data.help {
                    Some(ref h) => Some(h@),
                    None => None::<Seq<char>>,
                }),
            decreases self.commands@.len() - i,
        {
            if self.commands[i].0.eq_name(name) {
                // shadow the old definition in place
                let mut chain = self.commands[i].1.overwrote_definition_in.clone();
                proof {
                    assert(chain@ =~= self.commands@[i as int].1.overwrote_definition_in@);
                }
                chain.push(self.commands[i].1.source_location.clone());
                proof {
                    assert(chain@ =~= self.commands@[i as int].1.overwrote_definition_in@.push(
                        self.commands@[i as int].1.source_location,
                    ));
                }
                let new_cmd = Command {
                    help: cmd.help,
                    inputs: cmd.inputs,
                    script: cmd.script,
                    source_location: cmd.source_location,
                    source: cmd.source,
                    overwrote_definition_in: chain,
                };
                let ghost ncv = new_cmd.view();
                self.commands.remove(i);
                self.commands.insert(i, (name.clone(), new_cmd));
                proof {
                    let r1 = self.reg();
                    assert(r1 =~= r0.update(i as int, (name@, ncv)));
                    assert(reg_find(r0, name@) == Some(i as int)) by {
                        assert(r0[i as int].0 == name@);
                        let w = choose|w: int| 0 <= w < r0.len() && r0[w].0 == name@;
                        if w != i as int {
                            assert(r0[w].0 != r0[i as int].0);
                        }
                    }
                    assert(ncv.overwrote =~= r0[i as int].1.overwrote.push(
                        r0[i as int].1.source_location,
                    ));
                    let target = with_overwrote(
                        cv,
                        r0[i as int].1.overwrote.push(r0[i as int].1.source_location),
                    );
                    assert(ncv.inputs =~= target.inputs);
                    assert(ncv.overwrote =~= target.overwrote);
                    assert(ncv == target);
                    assert(r1 =~= reg_add(r0, name@, cv));
                    assert forall|x: int, y: int| 0 <= x < y < r1.len() implies (
                    #[trigger] r1[x].0) != (#[trigger] r1[y].0) by {
                        assert(r1[x].0 == r0[x].0);
                        assert(r1[y].0 == r0[y].0);
                    }
                    assert forall|x: int| 0 <= x < r1.len() implies crate::names::valid_command_name(
                        (#[trigger] r1[x]).0,
                    ) by {
                        if x != i as int {
                            assert(r1[x].0 == r0[x].0);
                        }
                    }
                }
                return Ok(());
            }
            i += 1;
        }
        let ghost cn = name@;
        self.commands.push((name.clone(), cmd));
        proof {
            let r1 = self.reg();
            assert(r1 =~= r0.push((cn, cv)));
            assert(reg_find(r0, cn) is None) by {
                if exists|w: int| 0 <= w < r0.len() && r0[w].0 == cn {
                    let w = choose|w: int| 0 <= w < r0.len() && r0[w].0 == cn;
                    assert(r0[w].0 != cn);
                }
            }
            assert(cv.overwrote =~= Seq::<Seq<char>>::empty());
            assert(with_overwrote(cv, Seq::empty()) == cv);
            assert(r1 =~= reg_add(r0, cn, cv));
            assert forall|x: int, y: int| 0 <= x < y < r1.len() implies (#[trigger] r1[x].0) != (
            #[trigger] r1[y].0) by {
                if y < r1.len() - 1 {
                    assert(r1[x].0 == r0[x].0);
                    assert(r1[y].0 == r0[y].0);
                } else {
                    assert(r1[x].0 == r0[x].0);
                    assert(r1[y].0 == cn);
                }
            }
            assert forall|x: int| 0 <= x < r1.len() implies crate::names::valid_command_name(
                (#[trigger] r1[x]).0,
            ) by {
                if x < r1.len() - 1 {
                    assert(r1[x].0 == r0[x].0);
                } else {
                    assert(r1[x].0 == cn);
                }
            }
        }
        Ok(())
    }

    /// A snapshot of everything loaded so far, with the commands in
    /// byte-lexicographic name order.
    pub fn build(&self) -> (r: CommandManager)
        requires
            self.wf(),
        ensures
            r.wf(),
            r.reg().len() == self.reg().len(),
            forall|x: (Seq<char>, CommandView)| #[trigger]
                r.reg().contains(x) <==> self.reg().contains(x),
    {
        let ghost src = self.reg();
        let mut commands: Vec<(CommandName, Command)> = Vec::new();
        let mut i: usize = 0;
        while i < self.commands.len()
            invariant
                reg_unique(src),
                reg_valid_names(src),
                src == self.reg(),
                src.len() == self.commands@.len(),
                i <= self.commands@.len(),
                entries_view(commands@).len() == i,
                reg_sorted(entries_view(commands@)),
                reg_valid_names(entries_view(commands@)),
                forall|x: (Seq<char>, CommandView)| #[trigger]
                    entries_view(commands@).contains(x) <==> exists|j: int|
                        0 <= j < i && src[j] == x,
            decreases self.commands@.len() - i,
        {
            let (n, c) = &self.commands[i];
            let ghost ev0 = entries_view(commands@);
            proof {
                assert(src[i as int] == (n@, c.view()));
                assert forall|idx: int| 0 <= idx < ev0.len() implies (#[trigger] ev0[idx]).0
                    != n@ by {
                    assert(ev0.contains(ev0[idx]));
                    let j = choose|j: int| 0 <= j < i && src[j] == ev0[idx];
                    if ev0[idx].0 == n@ {
                        assert(src[j].0 == src[i as int].0);
                    }
                }
            }
            let (pos, found) = reg_lower_bound(&commands, n);
            proof {
                if found {
                    assert(false);
                }
            }
            commands.insert(pos, (n.clone(), c.clone()));
            proof {
                let ev1 = entries_view(commands@);
                let e = (n@, c.view());
                assert(ev1 =~= ev0.insert(pos as int, e));
                assert forall|x: int, y: int| 0 <= x < y < ev1.len() implies crate::strutil::lex_lt(
                    (#[trigger] ev1[x]).0,
                    (#[trigger] ev1[y]).0,
                ) by {
                    if y < pos as int {
                        assert(ev1[x] == ev0[x] && ev1[y] == ev0[y]);
                    } else if y == pos as int {
                        assert(ev1[x] == ev0[x]);
                        assert(crate::strutil::lex_lt(ev0[x].0, n@));
                    } else {
                        assert(ev1[y] == ev0[y - 1]);
                        assert(crate::strutil::lex_lt(n@, ev0[y - 1].0));
                        if x < pos as int {
                            assert(ev1[x] == ev0[x]);
                            assert(crate::strutil::lex_lt(ev0[x].0, n@));
                            crate::strutil::lemma_lex_lt_transitive(ev0[x].0, n@, ev0[y - 1].0);
                        } else if x == pos as int {
                            assert(ev1[x] == e);
                        } else {
                            assert(ev1[x] == ev0[x - 1]);
                        }
                    }
                }
                assert forall|x: (Seq<char>, CommandView)| #[trigger] ev1.contains(x) implies
                exists|j: int| 0 <= j < i + 1 && src[j] == x by {
                    let idx = choose|idx: int| 0 <= idx < ev1.len() && ev1[idx] == x;
                    if idx < pos as int {
                        assert(ev0[idx] == x);
                        assert(ev0.contains(x));
                    } else if idx == pos as int {
                        assert(x == e);
                        assert(src[i as int] == x);
                    } else {
                        assert(ev0[idx - 1] == x);
                        assert(ev0.contains(x));
                    }
                }
                assert forall|x: (Seq<char>, CommandView)|
                    (exists|j: int| 0 <= j < i + 1 && src[j] == x) implies #[trigger] ev1.contains(
                    x,
                ) by {
                    let j = choose|j: int| 0 <= j < i + 1 && src[j] == x;
                    if j < i as int {
                        assert(ev0.contains(x));
                        let idx = choose|idx: int| 0 <= idx < ev0.len() && ev0[idx] == x;
                        if idx < pos as int {
                            assert(ev1[idx] == x);
                        } else {
                            assert(ev1[idx + 1] == x);
                        }
                    } else {
                        assert(x == e);
                        assert(ev1[pos as int] == x);
                    }
                }
            }
            i += 1;
        }
        let r = CommandManager { commands };
        proof {
            assert forall|x: (Seq<char>, CommandView)| #[trigger] r.reg().contains(x)
                <==> self.reg().contains(x) by {
                assert(r.reg() == entries_view(commands@));
            }
        }
        r
    }
}

/// Where a name sits, or would sit, in a name-sorted entry list.
fn reg_lower_bound(entries: &Vec<(CommandName, Command)>, name: &CommandName) -> (r: (usize, bool))
    requires
        reg_sorted(entries_view(entries@)),
    ensures
        r.0 <= entries_view(entries@).len(),
        forall|j: int|
            0 <= j < r.0 ==> crate::strutil::lex_lt(
                (#[trigger] entries_view(entries@)[j]).0,
                name@,
            ),
        r.1 ==> r.0 < entries_view(entries@).len() && entries_view(entries@)[r.0 as int].0
            == name@,
        !r.1 ==> forall|j: int|
            r.0 <= j < entries_view(entries@).len() ==> crate::strutil::lex_lt(
                name@,
                (#[trigger] entries_view(entries@)[j]).0,
            ),
{
    let ghost ev = entries_view(entries@);
    let mut idx: usize = 0;
    while idx < entries.len()
        invariant
            reg_sorted(ev),
            ev == entries_view(entries@),
            ev.len() == entries@.len(),
            idx <= ev.len(),
            forall|j: int| 0 <= j < idx ==> crate::strutil::lex_lt((#[trigger] ev[j]).0, name@),
        decreases ev.len() - idx,
    {
        let c = crate::strutil::str_compare(entries[idx].0.as_str(), name.as_str());
        if c < 0 {
            idx += 1;
        } else if c == 0 {
            return (idx, true);
        } else {
            proof {
                assert(crate::strutil::lex_lt(name@, ev[idx as int].0));
                assert forall|j: int| idx <= j < ev.len() implies crate::strutil::lex_lt(
                    name@,
                    (#[trigger] ev[j]).0,
                ) by {
                    if j > idx {
                        assert(crate::strutil::lex_lt(ev[idx as int].0, ev[j].0));
                        crate::strutil::lemma_lex_lt_transitive(name@, ev[idx as int].0, ev[j].0);
                    }
                }
            }
            return (idx, false);
        }
    }
    (idx, false)
}

impl Clone for CommandManager {
    fn clone(&self) -> (r: Self)
        ensures
            r.reg() == self.reg(),
    {
        let mut commands: Vec<(CommandName, Command)> = Vec::new();
        let mut i: usize = 0;
        while i < self.commands.len()
            invariant
                i <= self.commands@.len(),
                commands@.len() == i,
                forall|j: int|
                    0 <= j < i ==> (#[trigger] commands@[j]).0@ == self.commands@[j].0@
                        && commands@[j].1.view() == self.commands@[j].1.view(),
            decreases self.commands@.len() - i,
        {
            let (n, c) = &self.commands[i];
            commands.push((n.clone(), c.clone()));
            i += 1;
        }
        let r = CommandManager { commands };
        proof {
            assert(r.reg() =~= self.reg());
        }
        r
    }
}

impl CommandManager {
    pub closed spec fn reg(&self) -> Seq<(Seq<char>, CommandView)> {
        entries_view(self.commands@)
    }

    pub open spec fn wf(&self) -> bool {
        reg_sorted(self.reg()) && reg_valid_names(self.reg())
    }

    pub open spec fn contains_name(&self, name: Seq<char>) -> bool {
        exists|i: int| 0 <= i < self.reg().len() && (#[trigger] self.reg()[i]).0 == name
    }

    /// Looks a command up by name; `CommandNotFound` names the miss.
    pub fn command(&self, name: &CommandName) -> (r: Result<&Command, Error>)
        ensures
            r is Ok <==> self.contains_name(name@),
            r matches Ok(c) ==> exists|i: int|
                0 <= i < self.reg().len() && (#[trigger] self.reg()[i]) == (name@, c.view()),
            r matches Err(e) ==> e matches Error::CommandNotFound { .. },
    {
        let mut i: usize = 0;
        while i < self.commands.len()
            invariant
                i <= self.commands@.len(),
                self.reg().len() == self.commands@.len(),
                forall|j: int| 0 <= j < i ==> (#[trigger] self.reg()[j].0) != name@,
            decreases self.commands@.len() - i,
        {
            if self.commands[i].0.eq_name(name) {
                proof {
                    assert(self.reg()[i as int] == (name@, self.commands@[i as int].1.view()));
                }
                return Ok(&self.commands[i].1);
            }
            i += 1;
        }
        proof {
            if self.contains_name(name@) {
                let w = choose|w: int|
                    0 <= w < self.reg().len() && (#[trigger] self.reg()[w]).0 == name@;
                assert(self.reg()[w].0 != name@);
            }
        }
        Err(Error::CommandNotFound { name: name.as_str().to_owned() })
    }

    /// The commands in load order.
    pub fn commands(&self) -> (r: &Vec<(CommandName, Command)>)
        ensures
            entries_view(r@) == self.reg(),
    {
        &self.commands
    }

    pub fn is_empty(&self) -> (r: bool)
        ensures
            r == (self.reg().len() == 0),
    {
        proof {
            assert(self.reg().len() == self.commands@.len());
        }
        self.commands.len() == 0
    }
}

pub open spec fn input_describe_line(i: InputView) -> Seq<char> {
    "    "@ + i.name + (match i.help {
        Some(h) => ":\t"@ + h,
        None => Seq::<char>::empty(),
    }) + "\n"@
}

pub open spec fn inputs_describe(inputs: Seq<InputView>) -> Seq<char>
    decreases inputs.len(),
{
    if inputs.len() == 0 {
        Seq::empty()
    } else {
        inputs_describe(inputs.drop_last()) + input_describe_line(inputs.last())
    }
}

pub open spec fn locations_join(parts: Seq<Seq<char>>) -> Seq<char>
    decreases parts.len(),
{
    if parts.len() == 0 {
        Seq::empty()
    } else if parts.len() == 1 {
        parts[0]
    } else {
        locations_join(parts.drop_last()) + ", "@ + parts.last()
    }
}

/// The human-readable description of one command: its help, its inputs,
/// and the definitions it overwrote.
pub open spec fn command_describe_spec(c: CommandView) -> Seq<char> {
    (match c.help {
        Some(h) => "    "@ + h + "\n\n"@,
        None => Seq::<char>::empty(),
    }) + (if c.inputs.len() == 0 {
        "  inputs: <none>\n"@
    } else {
        "  inputs:\n"@ + inputs_describe(c.inputs)
    }) + (if c.overwrote.len() > 0 {
        "  *** Overwrote definition in "@ + locations_join(c.overwrote) + " ***\n"@
    } else {
        Seq::<char>::empty()
    }) + "\n"@
}

impl Command {
    /// Describes the command for a human reader.
    pub fn describe(&self) -> (r: String)
        ensures
            r@ == command_describe_spec(self.view()),
    {
        let ghost cv = self.view();
        let mut r = String::new();
        match &self.help {
            Some(h) => {
                r.append("    ");
                r.append(h.as_str());
                r.append("\n\n");
                proof {
                    assert(r@ =~= "    "@ + cv.help->Some_0 + "\n\n"@);
                }
            },
            None => (),
        }
        let ghost opening = r@;
        if self.inputs.len() == 0 {
            r.append("  inputs: <none>\n");
        } else {
            r.append("  inputs:\n");
            let ghost ivs = cv.inputs;
            let mut i: usize = 0;
            while i < self.inputs.len()
                invariant
                    self.inputs@.map_values(|x: Input| x.view()) == ivs,
                    ivs.len() == self.inputs@.len(),
                    i <= self.inputs@.len(),
                    r@ == opening + "  inputs:\n"@ + inputs_describe(ivs.subrange(0, i as int)),
                decreases self.inputs@.len() - i,
            {
                let input = &self.inputs[i];
                r.append("    ");
                let iname = input.name();
                r.append(iname.as_str());
                match input.help() {
                    Some(h) => {
                        r.append(":\t");
                        r.append(h.as_str());
                    },
                    None => (),
                }
                r.append("\n");
                proof {
                    assert(ivs.subrange(0, i as int + 1).drop_last() =~= ivs.subrange(0, i as int));
                    assert(r@ =~= opening + "  inputs:\n"@ + inputs_describe(
                        ivs.subrange(0, i as int),
                    ) + input_describe_line(ivs[i as int]));
                }
                i += 1;
            }
            proof {
                assert(ivs.subrange(0, ivs.len() as int) =~= ivs);
            }
        }
        let ghost with_inputs = r@;
        if self.overwrote_definition_in.len() > 0 {
            r.append("  *** Overwrote definition in ");
            let joined = overwrote_joined(&self.overwrote_definition_in);
            r.append(joined.as_str());
            r.append(" ***\n");
            proof {
                assert(r@ =~= with_inputs + "  *** Overwrote definition in "@ + locations_join(
                    cv.overwrote,
                ) + " ***\n"@);
            }
        }
        r.append("\n");
        proof {
            assert(r@ =~= command_describe_spec(cv));
        }
        r
    }
}

fn overwrote_joined(parts: &Vec<String>) -> (r: String)
    ensures
        r@ == locations_join(parts@.map_values(|p: String| p@)),
{
    let ghost pvs = parts@.map_values(|p: String| p@);
    let mut r = String::new();
    if parts.len() == 0 {
        return r;
    }
    r.append(parts[0].as_str());
    let mut i: usize = 1;
    while i < parts.len()
        invariant
            pvs == parts@.map_values(|p: String| p@),
            pvs.len() == parts@.len(),
            1 <= i <= parts@.len(),
            r@ == locations_join(pvs.subrange(0, i as int)),
        decreases parts@.len() - i,
    {
        r.append(", ");
        r.append(parts[i].as_str());
        proof {
            assert(pvs.subrange(0, i as int + 1).drop_last() =~= pvs.subrange(0, i as int));
            assert(pvs.subrange(0, i as int + 1).len() > 1);
            assert(r@ =~= locations_join(pvs.subrange(0, i as int)) + ", "@ + pvs[i as int]);
        }
        i += 1;
    }
    proof {
        assert(pvs.subrange(0, pvs.len() as int) =~= pvs);
    }
    r
}

/// One line of the brief command listing.
pub open spec fn brief_line(name: Seq<char>, c: CommandView) -> Seq<char> {
    "  "@ + name + ":\t"@ + (match c.help {
        Some(h) => h,
        None => "no help"@,
    }) + "\n"@
}

pub open spec fn list_brief(reg: Seq<(Seq<char>, CommandView)>) -> Seq<char>
    decreases reg.len(),
{
    if reg.len() == 0 {
        Seq::empty()
    } else {
        list_brief(reg.drop_last()) + brief_line(reg.last().0, reg.last().1)
    }
}

pub open spec fn verbose_entry(name: Seq<char>, c: CommandView) -> Seq<char> {
    name + ":\n"@ + command_describe_spec(c)
}

pub open spec fn list_verbose(reg: Seq<(Seq<char>, CommandView)>) -> Seq<char>
    decreases reg.len(),
{
    if reg.len() == 0 {
        Seq::empty()
    } else {
        list_verbose(reg.drop_last()) + verbose_entry(reg.last().0, reg.last().1)
    }
}

impl CommandManager {
    /// Lists the registry: one brief line per command, or the name and
    /// full description of each when verbose.
    pub fn list_commands(&self, verbose: bool) -> (r: String)
        ensures
            verbose ==> r@ == list_verbose(self.reg()),
            !verbose ==> r@ == list_brief(self.reg()),
    {
        let ghost reg = self.reg();
        let mut r = String::new();
        let mut i: usize = 0;
        while i < self.commands.len()
            invariant
                reg == self.reg(),
                reg.len() == self.commands@.len(),
                i <= self.commands@.len(),
                verbose ==> r@ == list_verbose(reg.subrange(0, i as int)),
                !verbose ==> r@ == list_brief(reg.subrange(0, i as int)),
            decreases self.commands@.len() - i,
        {
            let (name, cmd) = &self.commands[i];
            if verbose {
                r.append(name.as_str());
                r.append(":\n");
                let description = cmd.describe();
                r.append(description.as_str());
                proof {
                    assert(reg.subrange(0, i as int + 1).drop_last() =~= reg.subrange(0, i as int));
                    assert(r@ =~= list_verbose(reg.subrange(0, i as int)) + verbose_entry(
                        name@,
                        cmd.view(),
                    ));
                }
            } else {
                r.append("  ");
                r.append(name.as_str());
                r.append(":\t");
                match cmd.help() {
                    Some(h) => {
                        r.append(h.as_str());
                    },
                    None => {
                        r.append("no help");
                    },
                }
                r.append("\n");
                proof {
                    assert(reg.subrange(0, i as int + 1).drop_last() =~= reg.subrange(0, i as int));
                    assert(r@ =~= list_brief(reg.subrange(0, i as int)) + brief_line(
                        name@,
                        cmd.view(),
                    ));
                }
            }
            i += 1;
        }
        proof {
            assert(reg.subrange(0, reg.len() as int) =~= reg);
        }
        r
    }

    /// Describes one command, or `CommandNotFound`.
    pub fn show_command(&self, name: &CommandName) -> (r: Result<String, Error>)
        ensures
            r is Ok <==> self.contains_name(name@),
            r matches Ok(s) ==> exists|i: int|
                0 <= i < self.reg().len() && (#[trigger] self.reg()[i]).0 == name@ && s@
                    == command_describe_spec(self.reg()[i].1),
            r matches Err(e) ==> e matches Error::CommandNotFound { .. },
    {
        match self.command(name) {
            Ok(cmd) => {
                let ghost i = choose|i: int|
                    0 <= i < self.reg().len() && (#[trigger] self.reg()[i]) == (name@, cmd.view());
                Ok(cmd.describe())
            },
            Err(e) => Err(e),
        }
    }
}

/// Loading the same command name from a row of locations in order leaves
/// the final definition's overwrite chain holding every location but the
/// last, oldest first.
pub open spec fn reg_load_all(
    s: Seq<(Seq<char>, CommandView)>,
    name: Seq<char>,
    cmds: Seq<CommandView>,
) -> Seq<(Seq<char>, CommandView)>
    decreases cmds.len(),
{
    if cmds.len() == 0 {
        s
    } else {
        reg_add(reg_load_all(s, name, cmds.drop_last()), name, cmds.last())
    }
}

pub proof fn lemma_overwrite_chain(
    s: Seq<(Seq<char>, CommandView)>,
    name: Seq<char>,
    cmds: Seq<CommandView>,
)
    requires
        reg_unique(s),
        cmds.len() >= 1,
        reg_find(s, name) is None,
    ensures
        ({
            let r = reg_load_all(s, name, cmds);
            &&& reg_find(r, name) is Some
            &&& {
                let i = reg_find(r, name)->Some_0;
                &&& 0 <= i < r.len()
                &&& r[i].0 == name
                &&& r[i].1.overwrote =~= cmds.drop_last().map_values(
                    |c: CommandView| c.source_location,
                )
                &&& r[i].1.script == cmds.last().script
                &&& r[i].1.source_location == cmds.last().source_location
            }
        }),
    decreases cmds.len(),
{
    reg_load_all_unique(s, name, cmds);
    let r = reg_load_all(s, name, cmds);
    if cmds.len() == 1 {
        let prev = reg_load_all(s, name, cmds.drop_last());
        assert(prev == s);
        assert(r == reg_add(s, name, cmds.last()));
        let i = r.len() - 1;
        assert(r[i].0 == name);
        assert(reg_find(r, name) is Some);
        let w = choose|w: int| 0 <= w < r.len() && r[w].0 == name;
        if w != i {
            assert(r[w].0 == s[w].0);
            assert(reg_find(s, name) is None);
            assert(!(exists|v: int| 0 <= v < s.len() && s[v].0 == name));
            assert(s[w].0 != name);
        }
        assert(r[i].1.overwrote =~= Seq::<Seq<char>>::empty());
        assert(cmds.drop_last().map_values(|c: CommandView| c.source_location)
            =~= Seq::<Seq<char>>::empty());
    } else {
        lemma_overwrite_chain(s, name, cmds.drop_last());
        let prev = reg_load_all(s, name, cmds.drop_last());
        reg_load_all_unique(s, name, cmds.drop_last());
        let pi = reg_find(prev, name)->Some_0;
        assert(0 <= pi < prev.len() && prev[pi].0 == name);
        assert(r == prev.update(
            pi,
            (
                name,
                with_overwrote(
                    cmds.last(),
                    prev[pi].1.overwrote.push(prev[pi].1.source_location),
                ),
            ),
        ));
        assert(r[pi].0 == name);
        assert(reg_find(r, name) is Some);
        let i = reg_find(r, name)->Some_0;
        assert(i == pi) by {
            if i != pi {
                assert(r[i].0 == name && r[pi].0 == name);
                assert(reg_unique(r));
            }
        }
        assert(prev[pi].1.source_location == cmds[cmds.len() - 2].source_location) by {
            assert(cmds.drop_last().last() == cmds[cmds.len() - 2]);
        }
        assert(r[i].1.overwrote =~= cmds.drop_last().map_values(
            |c: CommandView| c.source_location,
        )) by {
            assert(prev[pi].1.overwrote =~= cmds.drop_last().drop_last().map_values(
                |c: CommandView| c.source_location,
            ));
            assert(cmds.drop_last().map_values(|c: CommandView| c.source_location)
                =~= cmds.drop_last().drop_last().map_values(
                |c: CommandView| c.source_location,
            ).push(cmds[cmds.len() - 2].source_location));
        }
    }
}

/// Loading keeps names unique.
proof fn reg_load_all_unique(
    s: Seq<(Seq<char>, CommandView)>,
    name: Seq<char>,
    cmds: Seq<CommandView>,
)
    requires
        reg_unique(s),
    ensures
        reg_unique(reg_load_all(s, name, cmds)),
        reg_load_all(s, name, cmds).len() >= s.len(),
        cmds.len() > 0 ==> reg_find(reg_load_all(s, name, cmds), name) is Some,
    decreases cmds.len(),
{
    if cmds.len() > 0 {
        reg_load_all_unique(s, name, cmds.drop_last());
        let prev = reg_load_all(s, name, cmds.drop_last());
        let r = reg_add(prev, name, cmds.last());
        match reg_find(prev, name) {
            None => {
                assert(r =~= prev.push((name, with_overwrote(cmds.last(), Seq::empty()))));
                assert forall|x: int, y: int| 0 <= x < y < r.len() implies (#[trigger] r[x].0) != (
                #[trigger] r[y].0) by {
                    if y < r.len() - 1 {
                        assert(r[x].0 == prev[x].0 && r[y].0 == prev[y].0);
                    } else {
                        assert(r[x].0 == prev[x].0);
                        assert(r[y].0 == name);
                        if exists|v: int| 0 <= v < prev.len() && prev[v].0 == name {
                            assert(reg_find(prev, name) is Some);
                        }
                    }
                }
                assert(r[r.len() - 1].0 == name);
            },
            Some(i) => {
                assert(0 <= i < prev.len() && prev[i].0 == name);
                assert forall|x: int, y: int| 0 <= x < y < r.len() implies (#[trigger] r[x].0) != (
                #[trigger] r[y].0) by {
                    assert(r[x].0 == prev[x].0 && r[y].0 == prev[y].0);
                }
                assert(r[i].0 == name);
            },
        }
    }
}

} // verus!
