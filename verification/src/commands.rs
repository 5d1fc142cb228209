//! The command registry: the names the command line accepts and how an
//! invocation resolves to one of them.
//!
//! Resolving is all this registry does.  Performing the resolved command —
//! with its process, file and terminal work — is the caller's part.

use vstd::prelude::*;
use vstd::string::StringExecFns;
use crate::ident::str_eq;

verus! {

/// Which operation an invocation asked for.
#[derive(Clone, Copy, Debug, PartialEq, Eq, Structural)]
pub enum CommandKind {
    Help,
    Run,
    Start,
    List,
    Kill,
    Reload,
    Startup,
}

/// A resolved invocation: the operation and the arguments left over for it.
#[derive(Debug)]
pub struct Dispatch {
    pub kind: CommandKind,
    pub args: Vec<String>,
}

/// The names of the available commands, in the order they are offered.
pub open spec fn command_names_spec() -> Seq<Seq<char>> {
    seq!["help"@, "run"@, "start"@, "list"@, "kill"@, "reload"@, "startup"@]
}

/// The command a name denotes, if any.
pub open spec fn kind_of_spec(name: Seq<char>) -> Option<CommandKind> {
    if name == "help"@ {
        Some(CommandKind::Help)
    } else if name == "run"@ {
        Some(CommandKind::Run)
    } else if name == "start"@ {
        Some(CommandKind::Start)
    } else if name == "list"@ {
        Some(CommandKind::List)
    } else if name == "kill"@ {
        Some(CommandKind::Kill)
    } else if name == "reload"@ {
        Some(CommandKind::Reload)
    } else if name == "startup"@ {
        Some(CommandKind::Startup)
    } else {
        None
    }
}

/// The registry of commands the supervisor offers.
pub struct CommandRegistry {
    names: Vec<String>,
}

impl CommandRegistry {
    /// The registry holds exactly the offered command names, in order.
    pub closed spec fn wf(&self) -> bool {
        self.names.deep_view() == command_names_spec()
    }

    /// A registry of all the commands.
    pub fn new() -> (r: CommandRegistry)
        ensures
            r.wf(),
    {
        let mut names: Vec<String> = Vec::new();
        names.push("help".to_owned());
        names.push("run".to_owned());
        names.push("start".to_owned());
        names.push("list".to_owned());
        names.push("kill".to_owned());
        names.push("reload".to_owned());
        names.push("startup".to_owned());
        proof {
            assert(names.deep_view() =~= command_names_spec());
        }
        CommandRegistry { names }
    }

    /// Resolve an invocation.  No arguments at all asks for help; otherwise
    /// the first argument names the command and the rest are handed to it;
    /// an unknown name is refused with a message naming it.
    pub fn execute(&self, args: &[String]) -> (r: Result<Dispatch, String>)
        ensures
            match r {
                Ok(d) => if args@.len() == 0 {
                    d.kind == CommandKind::Help && d.args@.len() == 0
                } else {
                    kind_of_spec(args@[0]@) == Some(d.kind) && d.args.deep_view()
                        == args.deep_view().skip(1)
                },
                Err(m) => args@.len() > 0 && kind_of_spec(args@[0]@) is None && m@
                    == "Unknown command: "@ + args@[0]@,
            },
    {
        if args.len() == 0 {
            return Ok(Dispatch { kind: CommandKind::Help, args: Vec::new() });
        }
        let name = args[0].as_str();
        let kind = if str_eq(name, "help") {
            CommandKind::Help
        } else if str_eq(name, "run") {
            CommandKind::Run
        } else if str_eq(name, "start") {
            CommandKind::Start
        } else if str_eq(name, "list") {
            CommandKind::List
        } else if str_eq(name, "kill") {
            CommandKind::Kill
        } else if str_eq(name, "reload") {
            CommandKind::Reload
        } else if str_eq(name, "startup") {
            CommandKind::Startup
        } else {
            let mut m = "Unknown command: ".to_owned();
            m.append(name);
            return Err(m);
        };
        let mut rest: Vec<String> = Vec::new();
        let mut i: usize = 1;
        proof {
            assert(rest.deep_view() =~= args.deep_view().subrange(1, 1));
        }
        while i < args.len()
            invariant
                1 <= i <= args@.len(),
                rest.deep_view() == args.deep_view().subrange(1, i as int),
            decreases args@.len() - i,
        {
            let ghost old_rest = rest.deep_view();
            rest.push(args[i].clone());
            proof {
                assert(rest.deep_view() =~= old_rest.push(args.deep_view()[i as int]));
                assert(args.deep_view().subrange(1, i as int + 1) =~= args.deep_view().subrange(
                    1,
                    i as int,
                ).push(args.deep_view()[i as int]));
            }
            i = i + 1;
        }
        proof {
            assert(args.deep_view().subrange(1, args@.len() as int) =~= args.deep_view().skip(1));
        }
        Ok(Dispatch { kind, args: rest })
    }

    /// The names of the commands, in the order they are offered.
    pub fn get_command_names(&self) -> (r: Vec<String>)
        requires
            self.wf(),
        ensures
            r.deep_view() == command_names_spec(),
    {
        let mut r: Vec<String> = Vec::new();
        let mut i: usize = 0;
        proof {
            assert(r.deep_view() =~= self.names.deep_view().subrange(0, 0));
        }
        while i < self.names.len()
            invariant
                0 <= i <= self.names@.len(),
                r.deep_view() == self.names.deep_view().subrange(0, i as int),
            decreases self.names@.len() - i,
        {
            let ghost old_r = r.deep_view();
            r.push(self.names[i].clone());
            proof {
                assert(r.deep_view() =~= old_r.push(self.names.deep_view()[i as int]));
                assert(self.names.deep_view().subrange(0, i as int + 1)
                    =~= self.names.deep_view().subrange(0, i as int).push(
                    self.names.deep_view()[i as int],
                ));
            }
            i = i + 1;
        }
        proof {
            assert(self.names.deep_view().subrange(0, self.names@.len() as int)
                =~= self.names.deep_view());
        }
        r
    }
}

} // verus!
