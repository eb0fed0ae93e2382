//! Help text for the command-line surface: the program's flags, what each
//! does, and example invocations.

use vstd::prelude::*;
use vstd::string::StringExecFns;

verus! {

/// The raw command-line arguments handed to the program.
pub struct Command {
    pub args: Vec<String>,
}

impl Command {
    /// Wrap an argument list as received from the environment.
    pub fn new(args: Vec<String>) -> (c: Command)
        ensures
            c.args == args,
    {
        Command { args }
    }
}

/// Help for one command-line flag.
pub struct CommandHelp {
    pub flag: String,
    pub usage: String,
    pub description: String,
    pub examples: Vec<String>,
}

/// The program's help text: header lines and a list of commands.
pub struct Usage {
    pub program_name: String,
    pub version: String,
    pub description: String,
    pub commands: Vec<CommandHelp>,
}

impl Usage {
    /// Header lines only, with no commands yet.
    pub fn new() -> (u: Usage)
        ensures
            u.program_name@ == "wallet"@,
            u.version@ == "1.0.0"@,
            u.description@ == "A secure command-line key-value store and password manager"@,
            u.commands@.len() == 0,
    {
        Usage {
            program_name: String::from_str("wallet"),
            version: String::from_str("1.0.0"),
            description: String::from_str(
                "A secure command-line key-value store and password manager",
            ),
            commands: Vec::new(),
        }
    }

    /// The standard help text: the six flags the program understands.
    pub fn default() -> (u: Usage)
        ensures
            u.program_name@ == "wallet"@,
            u.version@ == "1.0.0"@,
            u.commands@.len() == 6,
            u.commands@[0].flag@ == "-a, --add"@,
            u.commands@[0].usage@ == "<KEY> <VALUE>"@,
            u.commands@[0].examples@.len() == 2,
            u.commands@[1].flag@ == "-s, --show"@,
            u.commands@[1].usage@ == "<KEY>"@,
            u.commands@[2].flag@ == "-c, --copy"@,
            u.commands@[2].usage@ == "<KEY>"@,
            u.commands@[3].flag@ == "-l, --list"@,
            u.commands@[3].usage@ == ""@,
            u.commands@[4].flag@ == "-r, --remove"@,
            u.commands@[4].usage@ == "<KEY>"@,
            u.commands@[5].flag@ == "-h, --help"@,
            u.commands@[5].usage@ == ""@,
    {
        let mut usage = Self::new();
        let mut add_examples: Vec<String> = Vec::new();
        add_examples.push(String::from_str("wallet -a email john@example.com"));
        add_examples.push(String::from_str("wallet --add github-token ghp_xxxxxxxxxxxx"));
        usage.add_command(
            CommandHelp {
                flag: String::from_str("-a, --add"),
                usage: String::from_str("<KEY> <VALUE>"),
                description: String::from_str("Add or update a key-value pair in the wallet"),
                examples: add_examples,
            },
        );
        let mut show_examples: Vec<String> = Vec::new();
        show_examples.push(String::from_str("wallet -s email"));
        show_examples.push(String::from_str("wallet --show github-token"));
        usage.add_command(
            CommandHelp {
                flag: String::from_str("-s, --show"),
                usage: String::from_str("<KEY>"),
                description: String::from_str("Display the value for the specified key"),
                examples: show_examples,
            },
        );
        let mut copy_examples: Vec<String> = Vec::new();
        copy_examples.push(String::from_str("wallet -c password"));
        copy_examples.push(String::from_str("wallet --copy api-key"));
        usage.add_command(
            CommandHelp {
                flag: String::from_str("-c, --copy"),
                usage: String::from_str("<KEY>"),
                description: String::from_str(
                    "Copy the value of the specified key to clipboard",
                ),
                examples: copy_examples,
            },
        );
        let mut list_examples: Vec<String> = Vec::new();
        list_examples.push(String::from_str("wallet -l"));
        list_examples.push(String::from_str("wallet --list"));
        usage.add_command(
            CommandHelp {
                flag: String::from_str("-l, --list"),
                usage: String::from_str(""),
                description: String::from_str(
                    "List all available keys (values are hidden for security)",
                ),
                examples: list_examples,
            },
        );
        let mut remove_examples: Vec<String> = Vec::new();
        remove_examples.push(String::from_str("wallet -r old-password"));
        remove_examples.push(String::from_str("wallet --remove expired-token"));
        usage.add_command(
            CommandHelp {
                flag: String::from_str("-r, --remove"),
                usage: String::from_str("<KEY>"),
                description: String::from_str("Remove a key-value pair from the wallet"),
                examples: remove_examples,
            },
        );
        let mut help_examples: Vec<String> = Vec::new();
        help_examples.push(String::from_str("wallet -h"));
        help_examples.push(String::from_str("wallet --help"));
        usage.add_command(
            CommandHelp {
                flag: String::from_str("-h, --help"),
                usage: String::from_str(""),
                description: String::from_str("Show this help message"),
                examples: help_examples,
            },
        );
        usage
    }

    /// Append help for one more command.
    pub fn add_command(&mut self, command: CommandHelp)
        ensures
            final(self).commands@ == old(self).commands@.push(command),
            final(self).program_name == old(self).program_name,
            final(self).version == old(self).version,
            final(self).description == old(self).description,
    {
        self.commands.push(command);
    }

    /// Build a help text whose commands carry only the given descriptions.
    pub fn from(messages: Vec<String>) -> (u: Usage)
        ensures
            u.commands@.len() == messages@.len(),
            forall|i: int|
                0 <= i < messages@.len() ==> (#[trigger] u.commands@[i]).description
                    == messages@[i],
            forall|i: int|
                0 <= i < messages@.len() ==> (#[trigger] u.commands@[i]).flag@.len() == 0
                    && u.commands@[i].usage@.len() == 0 && u.commands@[i].examples@.len() == 0,
    {
        proof {
            reveal_strlit("");
        }
        let mut usage = Self::new();
        let n = messages.len();
        let mut i: usize = 0;
        let mut rest = messages;
        let ghost all = rest@;
        while i < n
            invariant
                n == all.len(),
                i <= n,
                rest@ == all.skip(i as int),
                usage.commands@.len() == i,
                forall|j: int|
                    0 <= j < i ==> (#[trigger] usage.commands@[j]).description == all[j],
                forall|j: int|
                    0 <= j < i ==> (#[trigger] usage.commands@[j]).flag@.len() == 0
                        && usage.commands@[j].usage@.len() == 0 && usage.commands@[j].examples@.len()
                        == 0,
            decreases n - i,
        {
            let msg = rest.remove(0);
            proof {
                reveal_strlit("");
                assert(msg == all[i as int]);
                assert(rest@ =~= all.skip(i as int + 1));
            }
            usage.add_command(
                CommandHelp {
                    flag: String::from_str(""),
                    usage: String::from_str(""),
                    description: msg,
                    examples: Vec::new(),
                },
            );
            i = i + 1;
        }
        usage
    }
}

} // verus!
