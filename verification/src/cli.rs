//! What the program is asked for on its command line.

use vstd::prelude::*;
use vstd::string::*;

use crate::text::{same_text, texts};

verus! {

/// The configuration file by default.
pub const DEFAULT_CONFIG: &'static str = "config.toml";

/// What the program is asked for.
#[derive(Debug)]
pub enum CliCommand {
    /// To run the firewall with a configuration.
    Run(String),
    /// To evaluate the detection.
    Eval(Vec<String>),
    /// To search for new rules.
    Learn(Vec<String>),
    GetHealth,
    GetBypass,
    GetBlacklist,
    AddBypass(String),
    RemoveBypass(String),
    Help,
    /// A `get` or `set` that does not exist.
    Unknown,
}

/// A command over sequences of characters.
pub enum CommandView {
    Run(Seq<char>),
    Eval(Seq<Seq<char>>),
    Learn(Seq<Seq<char>>),
    GetHealth,
    GetBypass,
    GetBlacklist,
    AddBypass(Seq<char>),
    RemoveBypass(Seq<char>),
    Help,
    Unknown,
}

impl View for CliCommand {
    type V = CommandView;

    open spec fn view(&self) -> CommandView {
        match *self {
            CliCommand::Run(c) => CommandView::Run(c@),
            CliCommand::Eval(a) => CommandView::Eval(texts(a@)),
            CliCommand::Learn(a) => CommandView::Learn(texts(a@)),
            CliCommand::GetHealth => CommandView::GetHealth,
            CliCommand::GetBypass => CommandView::GetBypass,
            CliCommand::GetBlacklist => CommandView::GetBlacklist,
            CliCommand::AddBypass(p) => CommandView::AddBypass(p@),
            CliCommand::RemoveBypass(p) => CommandView::RemoveBypass(p@),
            CliCommand::Help => CommandView::Help,
            CliCommand::Unknown => CommandView::Unknown,
        }
    }
}

/// What the arguments ask for. The first decides; one that is no command is the
/// configuration file.
pub open spec fn command_in(args: Seq<Seq<char>>) -> CommandView {
    if args.len() == 0 {
        CommandView::Run(DEFAULT_CONFIG@)
    } else if args[0] == "eval"@ {
        CommandView::Eval(args.skip(1))
    } else if args[0] == "learn"@ {
        CommandView::Learn(args.skip(1))
    } else if args[0] == "--help"@ {
        CommandView::Help
    } else if args[0] == "get"@ {
        if args.len() == 2 && args[1] == "health"@ {
            CommandView::GetHealth
        } else if args.len() == 2 && args[1] == "bypass"@ {
            CommandView::GetBypass
        } else if args.len() == 2 && args[1] == "blacklist"@ {
            CommandView::GetBlacklist
        } else {
            CommandView::Unknown
        }
    } else if args[0] == "set"@ {
        if args.len() == 4 && args[1] == "bypass"@ && args[2] == "add"@ {
            CommandView::AddBypass(args[3])
        } else if args.len() == 4 && args[1] == "bypass"@ && args[2] == "remove"@ {
            CommandView::RemoveBypass(args[3])
        } else {
            CommandView::Unknown
        }
    } else {
        CommandView::Run(args[0])
    }
}

fn all_but_first(args: &Vec<String>) -> (r: Vec<String>)
    requires
        args@.len() > 0,
    ensures
        texts(r@) == texts(args@).skip(1),
{
    let mut r: Vec<String> = Vec::new();
    let mut i: usize = 1;
    while i < args.len()
        invariant
            1 <= i <= args@.len(),
            r@.len() == i - 1,
            forall|j: int| 0 <= j < i - 1 ==> (#[trigger] r@[j])@ == args@[j + 1]@,
        decreases args@.len() - i,
    {
        r.push(args[i].clone());
        i += 1;
    }
    assert(texts(r@) =~= texts(args@).skip(1));
    r
}

/// What the arguments, without the name of the program, ask for.
pub fn parse(args: &Vec<String>) -> (r: CliCommand)
    ensures
        r@ == command_in(texts(args@)),
{
    let n: usize = args.len();
    if n == 0 {
        return CliCommand::Run(DEFAULT_CONFIG.to_owned());
    }
    let ghost all = texts(args@);
    assert(all[0] == args@[0]@);
    assert(n > 1 ==> all[1] == args@[1]@);
    assert(n > 2 ==> all[2] == args@[2]@);
    assert(n > 3 ==> all[3] == args@[3]@);
    let first: &str = args[0].as_str();
    if same_text(first, "eval") {
        CliCommand::Eval(all_but_first(args))
    } else if same_text(first, "learn") {
        CliCommand::Learn(all_but_first(args))
    } else if same_text(first, "--help") {
        CliCommand::Help
    } else if same_text(first, "get") {
        if n == 2 && same_text(args[1].as_str(), "health") {
            CliCommand::GetHealth
        } else if n == 2 && same_text(args[1].as_str(), "bypass") {
            CliCommand::GetBypass
        } else if n == 2 && same_text(args[1].as_str(), "blacklist") {
            CliCommand::GetBlacklist
        } else {
            CliCommand::Unknown
        }
    } else if same_text(first, "set") {
        if n == 4 && same_text(args[1].as_str(), "bypass") && same_text(args[2].as_str(), "add") {
            CliCommand::AddBypass(args[3].clone())
        } else if n == 4 && same_text(args[1].as_str(), "bypass") && same_text(
            args[2].as_str(),
            "remove",
        ) {
            CliCommand::RemoveBypass(args[3].clone())
        } else {
            CliCommand::Unknown
        }
    } else {
        CliCommand::Run(args[0].clone())
    }
}

/// The help.
pub const HELP: &'static str =
    "limen                        启动 WAF\nlimen <config>               指定配置文件\nlimen eval [--llm] [目录]    离线评测\nlimen learn [--whites <目录>] [<gaps.jsonl>]   规则蒸馏\nlimen get health             健康检查\nlimen get bypass             查看直通白名单\nlimen get blacklist          查看黑名单\nlimen set bypass add <路径>  添加直通路径\nlimen set bypass remove <路径>  移除直通路径\nlimen --help                 帮助\n";

} // verus!
