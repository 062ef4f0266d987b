//! The mount planner and the container runtime's argument builder: which
//! container kind a phase runs in, what gets mounted where, and the exact
//! argument vector handed to the runtime.

use vstd::prelude::*;
use crate::bindings::{Binding, BindingView, RunEnvironment, parse_binding_spec};
use crate::context::BuildContext;
use crate::errors::Error;
use crate::phases::{phase_name_spec, Phases};

verus! {

/// The machine id every build container runs under.
pub const DEFAULT_MACHINE_ID: &'static str = "0bf95bb771364ef997e1df5eb3b26422";

pub open spec fn run_in_bootstrap_spec(phase: Phases) -> bool {
    phase == Phases::Install || phase == Phases::BuildArtifacts || phase == Phases::TestArtifacts
}

/// Whether the phase runs in the bootstrap environment rather than inside
/// the target root.
pub fn run_in_bootstrap(phase: &Phases) -> (r: bool)
    ensures
        r == run_in_bootstrap_spec(*phase),
{
    *phase == Phases::Install || *phase == Phases::BuildArtifacts || *phase
        == Phases::TestArtifacts
}

pub open spec fn mount_artifacts_directory_spec(phase: Phases) -> bool {
    phase == Phases::BuildArtifacts || phase == Phases::TestArtifacts
}

/// Whether the artifacts directory is mounted into the container.
pub fn mount_artifacts_directory(phase: &Phases) -> (r: bool)
    ensures
        r == mount_artifacts_directory_spec(*phase),
{
    *phase == Phases::BuildArtifacts || *phase == Phases::TestArtifacts
}

pub open spec fn mount_root_fs_spec(phase: Phases) -> bool {
    phase != Phases::TestArtifacts
}

/// Whether the target root is visible to the container; artifact testing
/// runs isolated from it.
pub fn mount_root_fs(phase: &Phases) -> (r: bool)
    ensures
        r == mount_root_fs_spec(*phase),
{
    *phase != Phases::TestArtifacts
}

/// A command to run inside the container: program, arguments, working
/// directory, extra environment and bindings, and the exit code that
/// counts as success.
pub struct Command {
    pub command: String,
    pub arguments: Vec<String>,
    pub current_directory: Option<String>,
    pub environment: Vec<(String, String)>,
    pub bindings: Vec<Binding>,
    pub expected_exit_code: i32,
}

pub open spec fn env_view(s: Seq<(String, String)>) -> Seq<(Seq<char>, Seq<char>)> {
    s.map_values(|e: (String, String)| (e.0@, e.1@))
}

impl Command {
    pub open spec fn env_map_view(&self) -> Seq<(Seq<char>, Seq<char>)> {
        env_view(self.environment@)
    }

    pub fn new(program: &str) -> (r: Command)
        ensures
            r.command@ == program@,
            r.arguments@ == Seq::<String>::empty(),
            r.current_directory is None,
            r.environment@ == Seq::<(String, String)>::empty(),
            r.bindings@ == Seq::<Binding>::empty(),
            r.expected_exit_code == 0,
    {
        Command {
            command: program.to_owned(),
            arguments: Vec::new(),
            current_directory: None,
            environment: Vec::new(),
            bindings: Vec::new(),
            expected_exit_code: 0,
        }
    }

    /// Appends one argument.
    pub fn arg(&mut self, arg: &str)
        ensures
            final(self).arguments@.map_values(|a: String| a@) == old(self).arguments@.map_values(
                |a: String| a@,
            ).push(arg@),
            final(self).command == old(self).command,
            final(self).current_directory == old(self).current_directory,
            final(self).environment == old(self).environment,
            final(self).bindings == old(self).bindings,
            final(self).expected_exit_code == old(self).expected_exit_code,
    {
        self.arguments.push(arg.to_owned());
        proof {
            assert(self.arguments@.map_values(|a: String| a@) =~= old(
                self,
            ).arguments@.map_values(|a: String| a@).push(arg@));
        }
    }

    /// Appends several arguments in order.
    pub fn args(&mut self, args: &Vec<String>)
        ensures
            final(self).arguments@.map_values(|a: String| a@) == old(self).arguments@.map_values(
                |a: String| a@,
            ) + args@.map_values(|a: String| a@),
            final(self).command == old(self).command,
            final(self).environment == old(self).environment,
            final(self).bindings == old(self).bindings,
            final(self).current_directory == old(self).current_directory,
            final(self).expected_exit_code == old(self).expected_exit_code,
    {
        let mut i: usize = 0;
        while i < args.len()
            invariant
                i <= args@.len(),
                self.arguments@.map_values(|a: String| a@) == old(self).arguments@.map_values(
                    |a: String| a@,
                ) + args@.map_values(|a: String| a@).subrange(0, i as int),
                self.command == old(self).command,
                self.environment == old(self).environment,
                self.bindings == old(self).bindings,
                self.current_directory == old(self).current_directory,
                self.expected_exit_code == old(self).expected_exit_code,
            decreases args@.len() - i,
        {
            let ghost avs = args@.map_values(|a: String| a@);
            let ghost pre = self.arguments@.map_values(|a: String| a@);
            self.arguments.push(args[i].clone());
            proof {
                assert(self.arguments@.map_values(|a: String| a@) =~= pre.push(avs[i as int]));
                assert(pre.push(avs[i as int]) =~= old(self).arguments@.map_values(|a: String| a@)
                    + avs.subrange(0, i as int + 1));
            }
            i += 1;
        }
        proof {
            let avs = args@.map_values(|a: String| a@);
            assert(avs.subrange(0, avs.len() as int) =~= avs);
        }
    }

    /// Sets the exit code that counts as success.
    pub fn expect_exit_code(&mut self, code: i32)
        ensures
            final(self).expected_exit_code == code,
            final(self).command == old(self).command,
            final(self).arguments == old(self).arguments,
            final(self).environment == old(self).environment,
            final(self).bindings == old(self).bindings,
            final(self).current_directory == old(self).current_directory,
    {
        self.expected_exit_code = code;
    }

    /// Adds or replaces one environment variable.
    pub fn env(&mut self, key: &str, value: &str)
        ensures
            final(self).env_map_view() == env_insert(old(self).env_map_view(), key@, value@),
            final(self).command == old(self).command,
            final(self).arguments == old(self).arguments,
            final(self).bindings == old(self).bindings,
            final(self).current_directory == old(self).current_directory,
            final(self).expected_exit_code == old(self).expected_exit_code,
    {
        let ghost e0 = self.env_map_view();
        let mut i: usize = 0;
        while i < self.environment.len()
            invariant
                self == old(self),
                e0 == self.env_map_view(),
                e0.len() == self.environment@.len(),
                i <= self.environment@.len(),
                forall|j: int| 0 <= j < i ==> (#[trigger] e0[j]).0 != key@,
            decreases self.environment@.len() - i,
        {
            if crate::strutil::str_eq(self.environment[i].0.as_str(), key) {
                proof {
                    lemma_env_find_at(e0, key@, i as int);
                }
                let prev = self.environment.remove(i);
                self.environment.insert(i, (prev.0, value.to_owned()));
                proof {
                    assert(self.env_map_view() =~= e0.update(i as int, (key@, value@)));
                }
                return ;
            }
            i += 1;
        }
        proof {
            lemma_env_find_at(e0, key@, e0.len() as int);
        }
        self.environment.push((key.to_owned(), value.to_owned()));
        proof {
            assert(self.env_map_view() =~= e0.push((key@, value@)));
        }
    }

    /// Adds or replaces several environment variables in order.
    pub fn envs(&mut self, vars: &Vec<(String, String)>)
        ensures
            final(self).env_map_view() == env_insert_all(
                old(self).env_map_view(),
                env_view(vars@),
            ),
            final(self).command == old(self).command,
            final(self).arguments == old(self).arguments,
            final(self).bindings == old(self).bindings,
            final(self).current_directory == old(self).current_directory,
            final(self).expected_exit_code == old(self).expected_exit_code,
    {
        let ghost kvs = env_view(vars@);
        let mut i: usize = 0;
        while i < vars.len()
            invariant
                kvs == env_view(vars@),
                kvs.len() == vars@.len(),
                i <= vars@.len(),
                self.env_map_view() == env_insert_all(old(self).env_map_view(), kvs.subrange(0, i as int)),
                self.command == old(self).command,
                self.arguments == old(self).arguments,
                self.bindings == old(self).bindings,
                self.current_directory == old(self).current_directory,
                self.expected_exit_code == old(self).expected_exit_code,
            decreases vars@.len() - i,
        {
            self.env(vars[i].0.as_str(), vars[i].1.as_str());
            proof {
                assert(kvs.subrange(0, i as int + 1).drop_last() =~= kvs.subrange(0, i as int));
            }
            i += 1;
        }
        proof {
            assert(kvs.subrange(0, kvs.len() as int) =~= kvs);
        }
    }

    /// Clears the extra environment.
    pub fn env_clear(&mut self)
        ensures
            final(self).env_map_view() == Seq::<(Seq<char>, Seq<char>)>::empty(),
            final(self).command == old(self).command,
            final(self).arguments == old(self).arguments,
            final(self).bindings == old(self).bindings,
            final(self).current_directory == old(self).current_directory,
            final(self).expected_exit_code == old(self).expected_exit_code,
    {
        self.environment.clear();
        proof {
            assert(self.env_map_view() =~= Seq::<(Seq<char>, Seq<char>)>::empty());
        }
    }
}

/// The first index holding the key, if any.
pub open spec fn env_find(s: Seq<(Seq<char>, Seq<char>)>, key: Seq<char>) -> Option<int>
    decreases s.len(),
{
    if s.len() == 0 {
        None
    } else if s[0].0 == key {
        Some(0)
    } else {
        match env_find(s.drop_first(), key) {
            None => None,
            Some(i) => Some(i + 1),
        }
    }
}

proof fn lemma_env_find_at(s: Seq<(Seq<char>, Seq<char>)>, key: Seq<char>, i: int)
    requires
        0 <= i <= s.len(),
        forall|j: int| 0 <= j < i ==> (#[trigger] s[j]).0 != key,
        i < s.len() ==> s[i].0 == key,
    ensures
        i < s.len() ==> env_find(s, key) == Some(i),
        i == s.len() ==> env_find(s, key) is None,
    decreases i,
{
    if s.len() == 0 {
    } else if s[0].0 == key {
    } else {
        if i > 0 {
            lemma_env_find_at(s.drop_first(), key, i - 1);
        }
    }
}

/// What adding one variable does: a known key's value is replaced in
/// place, a fresh key is appended.
pub open spec fn env_insert(
    s: Seq<(Seq<char>, Seq<char>)>,
    key: Seq<char>,
    value: Seq<char>,
) -> Seq<(Seq<char>, Seq<char>)> {
    match env_find(s, key) {
        Some(i) => s.update(i, (key, value)),
        None => s.push((key, value)),
    }
}

pub open spec fn env_insert_all(
    s: Seq<(Seq<char>, Seq<char>)>,
    kvs: Seq<(Seq<char>, Seq<char>)>,
) -> Seq<(Seq<char>, Seq<char>)>
    decreases kvs.len(),
{
    if kvs.len() == 0 {
        s
    } else {
        env_insert(env_insert_all(s, kvs.drop_last()), kvs.last().0, kvs.last().1)
    }
}

/// The planned container run for one phase: kind, backing filesystem,
/// mounts, environment and networking.
pub struct RunnerPlan {
    pub in_bootstrap: bool,
    pub environment_root: RunEnvironment,
    pub machine_id: Option<String>,
    pub bindings: Vec<Binding>,
    pub environment: Vec<(String, String)>,
    pub enable_network: bool,
    pub enable_private_users: bool,
    pub current_directory: String,
    pub flags: Vec<String>,
}

impl RunnerPlan {
    /// The human-readable summary of the plan's flags.
    pub fn describe(&self) -> (r: String)
        ensures
            r@ == crate::strutil::join_spec(
                self.flags@.map_values(|f: String| f@) + Seq::<Seq<char>>::empty(),
                ',',
            ),
    {
        proof {
            assert(self.flags@.map_values(|f: String| f@) + Seq::<Seq<char>>::empty()
                =~= self.flags@.map_values(|f: String| f@));
        }
        crate::strutil::join_strings(&self.flags, ',')
    }
}

/// The bindings a phase's container is created with: the target root where
/// the phase may see it, the agent, busybox and the compiled script, any
/// extra bindings, and the artifacts tree for the artifact phases.
/// The always-present bindings, preceded by the target root where the
/// phase may see it.
pub open spec fn base_plan_bindings(
    phase: Phases,
    root_dir: Seq<char>,
    my_binary: Seq<char>,
    busybox: Seq<char>,
    script_src: Seq<char>,
) -> Seq<BindingView> {
    (if run_in_bootstrap_spec(phase) && mount_root_fs_spec(phase) {
        seq![BindingView::RW { source: root_dir, target: "/tmp/clrm/root_fs"@ }]
    } else {
        Seq::<BindingView>::empty()
    }) + seq![
        BindingView::RO { source: my_binary, target: "/tmp/clrm/agent"@ },
        BindingView::RO { source: busybox, target: "/tmp/clrm/busybox"@ },
        BindingView::RO { source: script_src, target: "/tmp/clrm/script.sh"@ },
    ]
}

pub open spec fn planned_bindings(
    phase: Phases,
    root_dir: Seq<char>,
    my_binary: Seq<char>,
    busybox: Seq<char>,
    script_src: Seq<char>,
    artifacts_dir: Seq<char>,
    extras: Seq<BindingView>,
) -> Seq<BindingView> {
    base_plan_bindings(phase, root_dir, my_binary, busybox, script_src) + extras + (
    if mount_artifacts_directory_spec(phase) {
        seq![BindingView::RW { source: artifacts_dir, target: "/tmp/clrm/artifacts_fs"@ }]
    } else {
        Seq::<BindingView>::empty()
    })
}

/// The environment entries every container gets, before the artifact mount
/// and the phase name.
pub open spec fn base_plan_env(phase: Phases, networked: bool) -> Seq<(Seq<char>, Seq<char>)> {
    (if run_in_bootstrap_spec(phase) {
        seq![("CLRM_CONTAINER"@, "bootstrap"@)] + (if mount_root_fs_spec(phase) {
            seq![("ROOT_FS"@, "/tmp/clrm/root_fs"@)]
        } else {
            Seq::<(Seq<char>, Seq<char>)>::empty()
        })
    } else {
        seq![("CLRM_CONTAINER"@, "root_fs"@), ("ROOT_FS"@, "/"@)]
    }) + seq![
        ("PHASE_IS_NETWORKED"@, if networked {
            "1"@
        } else {
            "0"@
        }),
    ]
}

/// The environment a phase's container is created with.
pub open spec fn planned_env(phase: Phases, networked: bool, artifacts: bool) -> Seq<
    (Seq<char>, Seq<char>),
> {
    base_plan_env(phase, networked) + (if artifacts {
        seq![("ARTIFACTS_FS"@, "/tmp/clrm/artifacts_fs"@)]
    } else {
        Seq::<(Seq<char>, Seq<char>)>::empty()
    }) + seq![("CURRENT_PHASE"@, phase_name_spec(phase))]
}

/// All extra binding strings parsed, or nothing when any is malformed.
pub open spec fn parse_all_bindings(xs: Seq<Seq<char>>) -> Option<Seq<BindingView>>
    decreases xs.len(),
{
    if xs.len() == 0 {
        Some(Seq::empty())
    } else {
        match (parse_all_bindings(xs.drop_last()), parse_binding_spec(xs.last())) {
            (Some(s), Some(b)) => Some(s.push(b)),
            _ => None,
        }
    }
}

/// Plans the container for one phase of a build: target-root phases run
/// inside the tree being built, the others in the bootstrap environment
/// with the tree and the artifacts mounted as the phase needs them.
pub fn create_runner(ctx: &BuildContext, phase: &Phases, extra_bindings: &Vec<String>) -> (r:
    Result<RunnerPlan, Error>)
    requires
        ctx.wf(),
    ensures
        r is Ok <==> parse_all_bindings(extra_bindings@.map_values(|x: String| x@)) is Some,
        r matches Err(e) ==> e matches Error::InvalidBindingSpec { .. },
        r matches Ok(p) ==> {
            let m = ctx.vars().as_map();
            &&& p.in_bootstrap == run_in_bootstrap_spec(*phase)
            &&& (if run_in_bootstrap_spec(*phase) {
                p.environment_root == ctx.bootstrap_environment
            } else {
                p.environment_root matches RunEnvironment::Directory(d) && d@ == m.index(
                    "ROOT_DIR"@,
                ).value
            })
            &&& (p.machine_id matches Some(id) && id@ == DEFAULT_MACHINE_ID@)
            &&& p.bindings@.map_values(|b: Binding| b@) == planned_bindings(
                *phase,
                m.index("ROOT_DIR"@).value,
                m.index("MY_BINARY"@).value,
                m.index("BUSYBOX_BINARY"@).value,
                ctx.scratch_dir@ + "/script.sh"@,
                m.index("ARTIFACTS_DIR"@).value,
                parse_all_bindings(extra_bindings@.map_values(|x: String| x@))->Some_0,
            )
            &&& env_view(p.environment@) == planned_env(
                *phase,
                ctx.networked_phases@.contains(*phase),
                mount_artifacts_directory_spec(*phase),
            )
            &&& p.enable_network == ctx.networked_phases@.contains(*phase)
            &&& p.enable_private_users == false
            &&& p.current_directory@ == "/"@
        },
{
    let ghost xs = extra_bindings@.map_values(|x: String| x@);
    let mut flags: Vec<String> = Vec::new();
    let mut bindings: Vec<Binding> = Vec::new();
    let mut environment: Vec<(String, String)> = Vec::new();
    let in_bootstrap = run_in_bootstrap(phase);
    let environment_root = if in_bootstrap {
        flags.push("BOOTSTRAP".to_owned());
        environment.push(("CLRM_CONTAINER".to_owned(), "bootstrap".to_owned()));
        if mount_root_fs(phase) {
            let root_dir = ctx.root_directory();
            bindings.push(Binding::rw(root_dir.as_str(), "/tmp/clrm/root_fs"));
            environment.push(("ROOT_FS".to_owned(), "/tmp/clrm/root_fs".to_owned()));
        }
        ctx.bootstrap_environment().clone()
    } else {
        flags.push("ROOT".to_owned());
        environment.push(("CLRM_CONTAINER".to_owned(), "root_fs".to_owned()));
        environment.push(("ROOT_FS".to_owned(), "/".to_owned()));
        RunEnvironment::Directory(ctx.root_directory())
    };
    let enable_network = ctx.wants_network(phase);
    if enable_network {
        flags.push("NET".to_owned());
        environment.push(("PHASE_IS_NETWORKED".to_owned(), "1".to_owned()));
    } else {
        flags.push("no net".to_owned());
        environment.push(("PHASE_IS_NETWORKED".to_owned(), "0".to_owned()));
    }
    bindings.push(Binding::ro(ctx.my_binary().as_str(), "/tmp/clrm/agent"));
    bindings.push(Binding::ro(ctx.busybox_binary().as_str(), "/tmp/clrm/busybox"));
    let mut script_src = ctx.scratch_directory();
    script_src.append("/script.sh");
    bindings.push(Binding::ro(script_src.as_str(), "/tmp/clrm/script.sh"));
    let ghost m = ctx.vars().as_map();
    let ghost base_bindings = base_plan_bindings(
        *phase,
        m.index("ROOT_DIR"@).value,
        m.index("MY_BINARY"@).value,
        m.index("BUSYBOX_BINARY"@).value,
        ctx.scratch_dir@ + "/script.sh"@,
    );
    let ghost base_env = base_plan_env(*phase, ctx.networked_phases@.contains(*phase));
    proof {
        assert(bindings@.map_values(|b: Binding| b@) =~= base_bindings);
        assert(env_view(environment@) =~= base_env);
    }
    let mut i: usize = 0;
    while i < extra_bindings.len()
        invariant
            ctx.wf(),
            m == ctx.vars().as_map(),
            xs == extra_bindings@.map_values(|x: String| x@),
            xs.len() == extra_bindings@.len(),
            i <= extra_bindings@.len(),
            base_bindings == base_plan_bindings(
                *phase,
                m.index("ROOT_DIR"@).value,
                m.index("MY_BINARY"@).value,
                m.index("BUSYBOX_BINARY"@).value,
                ctx.scratch_dir@ + "/script.sh"@,
            ),
            parse_all_bindings(xs.subrange(0, i as int)) is Some,
            bindings@.map_values(|b: Binding| b@) == base_bindings + parse_all_bindings(
                xs.subrange(0, i as int),
            )->Some_0,
            in_bootstrap == run_in_bootstrap_spec(*phase),
            enable_network == ctx.networked_phases@.contains(*phase),
            base_env == base_plan_env(*phase, ctx.networked_phases@.contains(*phase)),
            env_view(environment@) == base_env,
            (if run_in_bootstrap_spec(*phase) {
                environment_root == ctx.bootstrap_environment
            } else {
                environment_root matches RunEnvironment::Directory(d) && d@ == m.index(
                    "ROOT_DIR"@,
                ).value
            }),
        decreases extra_bindings@.len() - i,
    {
        let b = match Binding::parse(extra_bindings[i].as_str()) {
            Ok(b) => b,
            Err(_) => {
                proof {
                    lemma_parse_all_failure(xs, i as int);
                }
                return Err(Error::InvalidBindingSpec { spec: extra_bindings[i].clone() });
            },
        };
        let ghost prev = parse_all_bindings(xs.subrange(0, i as int))->Some_0;
        let ghost premap = bindings@.map_values(|bb: Binding| bb@);
        bindings.push(b);
        proof {
            assert(xs.subrange(0, i as int + 1).drop_last() =~= xs.subrange(0, i as int));
            assert(xs.subrange(0, i as int + 1).last() == xs[i as int]);
            assert(parse_all_bindings(xs.subrange(0, i as int + 1)) == Some(prev.push(b@)));
            assert(bindings@.map_values(|bb: Binding| bb@) =~= premap.push(b@));
            assert(premap.push(b@) =~= base_bindings + prev.push(b@));
        }
        i += 1;
    }
    proof {
        assert(xs.subrange(0, xs.len() as int) =~= xs);
    }
    let ghost extras = parse_all_bindings(xs)->Some_0;
    if mount_artifacts_directory(phase) {
        flags.push("ARTIFACTS".to_owned());
        bindings.push(Binding::rw(ctx.artifacts_directory().as_str(), "/tmp/clrm/artifacts_fs"));
        environment.push(("ARTIFACTS_FS".to_owned(), "/tmp/clrm/artifacts_fs".to_owned()));
        proof {
            assert(bindings@.map_values(|b: Binding| b@) =~= base_bindings + extras + seq![
                BindingView::RW {
                    source: m.index("ARTIFACTS_DIR"@).value,
                    target: "/tmp/clrm/artifacts_fs"@,
                },
            ]);
            assert(env_view(environment@) =~= base_env + seq![
                ("ARTIFACTS_FS"@, "/tmp/clrm/artifacts_fs"@),
            ]);
        }
    }
    environment.push(("CURRENT_PHASE".to_owned(), phase.name().to_owned()));
    let p = RunnerPlan {
        in_bootstrap,
        environment_root,
        machine_id: Some(DEFAULT_MACHINE_ID.to_owned()),
        bindings,
        environment,
        enable_network,
        enable_private_users: false,
        current_directory: "/".to_owned(),
        flags,
    };
    proof {
        assert(p.bindings@.map_values(|b: Binding| b@) =~= planned_bindings(
            *phase,
            ctx.vars().as_map().index("ROOT_DIR"@).value,
            ctx.vars().as_map().index("MY_BINARY"@).value,
            ctx.vars().as_map().index("BUSYBOX_BINARY"@).value,
            ctx.scratch_dir@ + "/script.sh"@,
            ctx.vars().as_map().index("ARTIFACTS_DIR"@).value,
            parse_all_bindings(xs)->Some_0,
        ));
        assert(env_view(p.environment@) =~= planned_env(
            *phase,
            ctx.networked_phases@.contains(*phase),
            mount_artifacts_directory_spec(*phase),
        ));
    }
    Ok(p)
}

/// A failed piece makes the whole extra-binding list fail.
proof fn lemma_parse_all_failure(xs: Seq<Seq<char>>, i: int)
    requires
        0 <= i < xs.len(),
        parse_binding_spec(xs[i]) is None,
    ensures
        parse_all_bindings(xs) is None,
    decreases xs.len(),
{
    if xs.len() > 0 {
        if i == xs.len() - 1 {
        } else {
            lemma_parse_all_failure(xs.drop_last(), i);
        }
    }
}

pub open spec fn env_arg(k: Seq<char>, v: Seq<char>) -> Seq<char> {
    "--setenv="@ + k + "="@ + v
}

pub open spec fn overlay_sources_prefix(sources: Seq<Seq<char>>) -> Seq<char>
    decreases sources.len(),
{
    if sources.len() == 0 {
        Seq::empty()
    } else {
        overlay_sources_prefix(sources.drop_last()) + sources.last() + ":"@
    }
}

/// The runtime flag one binding turns into.
pub open spec fn binding_arg(b: BindingView) -> Seq<char> {
    match b {
        BindingView::RW { source, target } => "--bind="@ + source + ":"@ + target,
        BindingView::RO { source, target } => "--bind-ro="@ + source + ":"@ + target,
        BindingView::TmpFS { target } => "--tmpfs="@ + target,
        BindingView::Inaccessible { target } => "--inaccessible="@ + target,
        BindingView::Overlay { sources, target } => "--overlay="@ + overlay_sources_prefix(sources)
            + target,
        BindingView::OverlayRO { sources, target } => "--overlay-ro="@ + overlay_sources_prefix(
            sources,
        ) + target,
    }
}

fn overlay_argument(prefix: &str, sources: &Vec<String>, target: &str) -> (r: String)
    ensures
        r@ == prefix@ + overlay_sources_prefix(sources@.map_values(|s: String| s@)) + target@,
{
    let ghost svs = sources@.map_values(|s: String| s@);
    let mut r = prefix.to_owned();
    let mut i: usize = 0;
    while i < sources.len()
        invariant
            svs == sources@.map_values(|s: String| s@),
            svs.len() == sources@.len(),
            i <= sources@.len(),
            r@ == prefix@ + overlay_sources_prefix(svs.subrange(0, i as int)),
        decreases sources@.len() - i,
    {
        r.append(sources[i].as_str());
        r.push(':');
        proof {
            assert(svs.subrange(0, i as int + 1).drop_last() =~= svs.subrange(0, i as int));
            reveal_strlit(":");
            assert(":"@ =~= seq![':']);
            assert(r@ =~= prefix@ + overlay_sources_prefix(svs.subrange(0, i as int + 1)));
        }
        i += 1;
    }
    proof {
        assert(svs.subrange(0, svs.len() as int) =~= svs);
    }
    r.append(target);
    r
}

/// The runtime flag for one binding.
pub fn binding_argument(b: &Binding) -> (r: String)
    ensures
        r@ == binding_arg(b@),
{
    match b {
        Binding::RW(map) => {
            let mut r = "--bind=".to_owned();
            r.append(map.source.as_str());
            r.append(":");
            r.append(map.target.as_str());
            r
        },
        Binding::RO(map) => {
            let mut r = "--bind-ro=".to_owned();
            r.append(map.source.as_str());
            r.append(":");
            r.append(map.target.as_str());
            r
        },
        Binding::TmpFS(target) => {
            let mut r = "--tmpfs=".to_owned();
            r.append(target.as_str());
            r
        },
        Binding::Inaccessible(target) => {
            let mut r = "--inaccessible=".to_owned();
            r.append(target.as_str());
            r
        },
        Binding::Overlay(map) => overlay_argument("--overlay=", &map.sources, map.target.as_str()),
        Binding::OverlayRO(map) => overlay_argument(
            "--overlay-ro=",
            &map.sources,
            map.target.as_str(),
        ),
    }
}

/// The `--setenv` flags for an environment, in order.
pub fn environment_arguments(env: &Vec<(String, String)>) -> (r: Vec<String>)
    ensures
        r@.map_values(|a: String| a@) == env_view(env@).map_values(
            |e: (Seq<char>, Seq<char>)| env_arg(e.0, e.1),
        ),
{
    let ghost evs = env_view(env@).map_values(|e: (Seq<char>, Seq<char>)| env_arg(e.0, e.1));
    let mut r: Vec<String> = Vec::new();
    let mut i: usize = 0;
    while i < env.len()
        invariant
            evs == env_view(env@).map_values(|e: (Seq<char>, Seq<char>)| env_arg(e.0, e.1)),
            evs.len() == env@.len(),
            i <= env@.len(),
            r@.map_values(|a: String| a@) == evs.subrange(0, i as int),
        decreases env@.len() - i,
    {
        let mut arg = "--setenv=".to_owned();
        arg.append(env[i].0.as_str());
        arg.append("=");
        arg.append(env[i].1.as_str());
        let ghost premap = r@.map_values(|a: String| a@);
        r.push(arg);
        proof {
            assert(r@.map_values(|a: String| a@) =~= premap.push(evs[i as int]));
            assert(premap.push(evs[i as int]) =~= evs.subrange(0, i as int + 1));
        }
        i += 1;
    }
    proof {
        assert(evs.subrange(0, evs.len() as int) =~= evs);
    }
    r
}

/// The binding flags for a binding list, in order.
pub fn binding_arguments(bindings: &Vec<Binding>) -> (r: Vec<String>)
    ensures
        r@.map_values(|a: String| a@) == bindings@.map_values(|b: Binding| binding_arg(b@)),
{
    let ghost bvs = bindings@.map_values(|b: Binding| binding_arg(b@));
    let mut r: Vec<String> = Vec::new();
    let mut i: usize = 0;
    while i < bindings.len()
        invariant
            bvs == bindings@.map_values(|b: Binding| binding_arg(b@)),
            bvs.len() == bindings@.len(),
            i <= bindings@.len(),
            r@.map_values(|a: String| a@) == bvs.subrange(0, i as int),
        decreases bindings@.len() - i,
    {
        let arg = binding_argument(&bindings[i]);
        let ghost premap = r@.map_values(|a: String| a@);
        r.push(arg);
        proof {
            assert(r@.map_values(|a: String| a@) =~= premap.push(bvs[i as int]));
            assert(premap.push(bvs[i as int]) =~= bvs.subrange(0, i as int + 1));
        }
        i += 1;
    }
    proof {
        assert(bvs.subrange(0, bvs.len() as int) =~= bvs);
    }
    r
}

pub open spec fn root_arg(e: RunEnvironment) -> Seq<char> {
    match e {
        RunEnvironment::Directory(d) => "--directory="@ + d@,
        RunEnvironment::Image(p) => "--image="@ + p@,
    }
}

/// The full argument vector for the container runtime: host integrations
/// off, machine id, networking, environment, bindings, user mapping,
/// working directory, the root, and finally the command itself.
pub open spec fn runtime_args_spec(plan: &RunnerPlan, cmd: &Command, uid: Seq<char>) -> Seq<
    Seq<char>,
> {
    seq![
        "--quiet"@,
        "--volatile=yes"@,
        "--settings=off"@,
        "--register=off"@,
        "--resolv-conf=off"@,
        "--timezone=off"@,
        "--link-journal=no"@,
        "--console=pipe"@,
    ] + (match plan.machine_id {
        Some(id) => seq!["--uuid="@ + id@],
        None => Seq::<Seq<char>>::empty(),
    }) + (if plan.enable_network {
        Seq::<Seq<char>>::empty()
    } else {
        seq!["--private-network"@]
    }) + env_view(plan.environment@).map_values(|e: (Seq<char>, Seq<char>)| env_arg(e.0, e.1))
        + cmd.env_map_view().map_values(|e: (Seq<char>, Seq<char>)| env_arg(e.0, e.1))
        + plan.bindings@.map_values(|b: Binding| binding_arg(b@)) + cmd.bindings@.map_values(
        |b: Binding| binding_arg(b@),
    ) + (if plan.enable_private_users {
        seq!["--private-users="@ + uid + ":1"@]
    } else {
        Seq::<Seq<char>>::empty()
    }) + (match cmd.current_directory {
        Some(ref d) => seq!["--chdir="@ + d@],
        None => Seq::<Seq<char>>::empty(),
    }) + seq![root_arg(plan.environment_root)] + seq![cmd.command@] + cmd.arguments@.map_values(
        |a: String| a@,
    )
}

/// Builds the runtime's argument vector for a planned run. The effective
/// uid for the user mapping is read from the system by the caller and
/// handed in already rendered.
#[verifier::rlimit(60)]
pub fn runtime_arguments(plan: &RunnerPlan, command: &Command, effective_uid: &str) -> (r: Vec<
    String,
>)
    ensures
        r@.map_values(|a: String| a@) == runtime_args_spec(plan, command, effective_uid@),
{
    let mut r: Vec<String> = Vec::new();
    r.push("--quiet".to_owned());
    r.push("--volatile=yes".to_owned());
    r.push("--settings=off".to_owned());
    r.push("--register=off".to_owned());
    r.push("--resolv-conf=off".to_owned());
    r.push("--timezone=off".to_owned());
    r.push("--link-journal=no".to_owned());
    r.push("--console=pipe".to_owned());
    match &plan.machine_id {
        Some(id) => {
            let mut arg = "--uuid=".to_owned();
            arg.append(id.as_str());
            r.push(arg);
        },
        None => (),
    }
    if !plan.enable_network {
        r.push("--private-network".to_owned());
    }
    let mut plan_env = environment_arguments(&plan.environment);
    r.append(&mut plan_env);
    let mut cmd_env = environment_arguments(&command.environment);
    r.append(&mut cmd_env);
    let mut plan_bind = binding_arguments(&plan.bindings);
    r.append(&mut plan_bind);
    let mut cmd_bind = binding_arguments(&command.bindings);
    r.append(&mut cmd_bind);
    if plan.enable_private_users {
        let mut arg = "--private-users=".to_owned();
        arg.append(effective_uid);
        arg.append(":1");
        r.push(arg);
    }
    match &command.current_directory {
        Some(d) => {
            let mut arg = "--chdir=".to_owned();
            arg.append(d.as_str());
            r.push(arg);
        },
        None => (),
    }
    match &plan.environment_root {
        RunEnvironment::Directory(d) => {
            let mut arg = "--directory=".to_owned();
            arg.append(d.as_str());
            r.push(arg);
        },
        RunEnvironment::Image(p) => {
            let mut arg = "--image=".to_owned();
            arg.append(p.as_str());
            r.push(arg);
        },
    }
    r.push(command.command.clone());
    let mut i: usize = 0;
    let ghost pre_args = r@.map_values(|a: String| a@);
    while i < command.arguments.len()
        invariant
            i <= command.arguments@.len(),
            r@.map_values(|a: String| a@) == pre_args + command.arguments@.map_values(
                |a: String| a@,
            ).subrange(0, i as int),
        decreases command.arguments@.len() - i,
    {
        let ghost avs = command.arguments@.map_values(|a: String| a@);
        let ghost premap = r@.map_values(|a: String| a@);
        r.push(command.arguments[i].clone());
        proof {
            assert(r@.map_values(|a: String| a@) =~= premap.push(avs[i as int]));
            assert(premap.push(avs[i as int]) =~= pre_args + avs.subrange(0, i as int + 1));
        }
        i += 1;
    }
    proof {
        let avs = command.arguments@.map_values(|a: String| a@);
        assert(avs.subrange(0, avs.len() as int) =~= avs);
        assert(r@.map_values(|a: String| a@) =~= runtime_args_spec(plan, command, effective_uid@));
    }
    r
}

/// Judges a finished container run: success exactly when the child exited
/// with the expected code; a wrong code or a signal is a failure carrying
/// the executable and its arguments.
pub fn run_outcome(
    executable: &str,
    args: &Vec<String>,
    status: Option<i32>,
    expected_exit_code: i32,
) -> (r: Result<(), Error>)
    ensures
        r is Ok <==> status == Some(expected_exit_code),
        r matches Err(e) ==> (e matches Error::CommandFailed {
            executable: x,
            args: a,
            status: s,
            ..
        } && x@ == executable@ && a@.map_values(|v: String| v@) == args@.map_values(
            |v: String| v@,
        ) && s == status),
{
    if status == Some(expected_exit_code) {
        return Ok(());
    }
    let cloned_args = args.clone();
    proof {
        assert(cloned_args@.map_values(|v: String| v@) =~= args@.map_values(|v: String| v@));
    }
    let message = match status {
        Some(_) => "Command finished with unexpected exit code",
        None => "Command was interrupted by a signal",
    };
    Err(
        Error::CommandFailed {
            executable: executable.to_owned(),
            args: cloned_args,
            message: message.to_owned(),
            status,
        },
    )
}

} // verus!
