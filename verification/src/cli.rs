//! The command line: what to run, which tool to call, and the manifest of tools.

use serde_json::Value;
use vstd::prelude::*;

use crate::entries::opt_text;
use crate::json::{arguments, build_args, json_content};
use crate::seqs::map_rows;
use crate::sort::{
    keyed, listing, listing_exists, place_of, sort_items, sorted_by_key, sorted_list_is_listing,
    sorting_by_key_is_stable, strictly_sorted, text_set, texts, zip_keys,
};
use crate::text::{debug_form, quoted, same_text, text_before, text_order_is_total};

verus! {

/// A parsed command line.
#[derive(Debug)]
pub struct Cli {
    /// What to run; the server where left out.
    pub command: Option<Cmd>,
}

/// What a command line asks to be run.
#[derive(Debug)]
pub enum Cmd {
    /// Serve tools over standard input and output.
    Serve,
    /// Print the tools with their descriptions and schemas.
    Tools {
        /// On one line.
        compact: bool,
    },
    /// Call one tool and print its result.
    Call {
        tool: String,
        /// All arguments as one JSON object.
        json: Option<String>,
        /// Single arguments as `key=value`.
        arg: Vec<String>,
        /// Indented.
        pretty: bool,
        /// How long to wait before the call, in milliseconds.
        settle_ms: u64,
    },
}

/// The command that a command line names, or else the server.
pub open spec fn command_of(cli: Cli) -> Cmd {
    match cli.command {
        Some(cmd) => cmd,
        None => Cmd::Serve,
    }
}

/// What is run: the server where no command is named.
pub fn chosen_command(cli: Cli) -> (r: Cmd)
    ensures
        r == command_of(cli),
{
    match cli.command {
        Some(cmd) => cmd,
        None => Cmd::Serve,
    }
}

/// A command does its work over eCAL.
pub open spec fn uses_ecal(cmd: Cmd) -> bool {
    !(cmd is Tools)
}

/// The result of a command is printed indented.
pub open spec fn is_indented(cmd: Cmd) -> bool {
    match cmd {
        Cmd::Call { pretty, .. } => pretty,
        Cmd::Tools { compact } => !compact,
        Cmd::Serve => false,
    }
}

/// Whether a command needs eCAL: all but the listing of tools do.
pub fn needs_ecal(cmd: &Cmd) -> (r: bool)
    ensures
        r == uses_ecal(*cmd),
{
    match cmd {
        Cmd::Tools { .. } => false,
        _ => true,
    }
}

/// Whether the result of a command is printed indented: a call on demand, the tools unless asked
/// otherwise.
pub fn wants_pretty(cmd: &Cmd) -> (r: bool)
    ensures
        r == is_indented(*cmd),
{
    match cmd {
        Cmd::Call { pretty, .. } => *pretty,
        Cmd::Tools { compact } => !*compact,
        Cmd::Serve => false,
    }
}

/// What a command comes down to.
#[derive(Debug)]
pub enum Task {
    /// Give the manifest.
    Manifest,
    /// Wait, where a time is given, then call a tool.
    Call {
        tool: String,
        args: Value,
        settle_ms: Option<u64>,
    },
}

/// `r` is what `cmd` comes down to: bad arguments end a call before anything is waited for.
pub open spec fn is_task_of(r: Result<Task, String>, cmd: Cmd) -> bool {
    match cmd {
        Cmd::Serve => false,
        Cmd::Tools { .. } => r == Ok::<Task, String>(Task::Manifest),
        Cmd::Call { tool, json, arg, pretty, settle_ms } => match arguments(opt_text(json), texts(arg@)) {
            Err(e) => r is Err && r->Err_0@ == e,
            Ok(v) => {
                &&& r is Ok
                &&& r->Ok_0 is Call
                &&& r->Ok_0->tool == tool
                &&& json_content(r->Ok_0->args) == v
                &&& r->Ok_0->settle_ms == if settle_ms > 0 {
                    Some(settle_ms)
                } else {
                    None
                }
            },
        },
    }
}

/// Settles what a command does. Serving is not among what can be asked here.
pub fn run(cmd: Cmd) -> (r: Result<Task, String>)
    requires
        !(cmd is Serve),
    ensures
        is_task_of(r, cmd),
{
    match cmd {
        Cmd::Call { tool, json, arg, pretty: _, settle_ms } => match build_args(json, arg) {
            Ok(args) => {
                let settle_ms: Option<u64> = if settle_ms > 0 {
                    Some(settle_ms)
                } else {
                    None
                };
                Ok(Task::Call { tool, args, settle_ms })
            },
            Err(e) => Err(e),
        },
        _ => Ok(Task::Manifest),
    }
}

/// The tools.
#[derive(Debug, Clone, Copy, PartialEq, Eq, Structural)]
pub enum Tool {
    ListPublishers,
    ListSubscribers,
    ListServices,
    ListServiceClients,
    ListProcesses,
    ListHosts,
    GetMonitoring,
    GetLogs,
    Publish,
    Subscribe,
    CallService,
    TopicStats,
    DiagnoseTopic,
}

/// The name by which a tool is called.
pub open spec fn tool_text(tool: Tool) -> Seq<char> {
    match tool {
        Tool::ListPublishers => "ecal_list_publishers"@,
        Tool::ListSubscribers => "ecal_list_subscribers"@,
        Tool::ListServices => "ecal_list_services"@,
        Tool::ListServiceClients => "ecal_list_service_clients"@,
        Tool::ListProcesses => "ecal_list_processes"@,
        Tool::ListHosts => "ecal_list_hosts"@,
        Tool::GetMonitoring => "ecal_get_monitoring"@,
        Tool::GetLogs => "ecal_get_logs"@,
        Tool::Publish => "ecal_publish"@,
        Tool::Subscribe => "ecal_subscribe"@,
        Tool::CallService => "ecal_call_service"@,
        Tool::TopicStats => "ecal_topic_stats"@,
        Tool::DiagnoseTopic => "ecal_diagnose_topic"@,
    }
}

/// The name by which a tool is called.
pub fn tool_name(tool: Tool) -> (r: String)
    ensures
        r@ == tool_text(tool),
{
    match tool {
        Tool::ListPublishers => "ecal_list_publishers".to_owned(),
        Tool::ListSubscribers => "ecal_list_subscribers".to_owned(),
        Tool::ListServices => "ecal_list_services".to_owned(),
        Tool::ListServiceClients => "ecal_list_service_clients".to_owned(),
        Tool::ListProcesses => "ecal_list_processes".to_owned(),
        Tool::ListHosts => "ecal_list_hosts".to_owned(),
        Tool::GetMonitoring => "ecal_get_monitoring".to_owned(),
        Tool::GetLogs => "ecal_get_logs".to_owned(),
        Tool::Publish => "ecal_publish".to_owned(),
        Tool::Subscribe => "ecal_subscribe".to_owned(),
        Tool::CallService => "ecal_call_service".to_owned(),
        Tool::TopicStats => "ecal_topic_stats".to_owned(),
        Tool::DiagnoseTopic => "ecal_diagnose_topic".to_owned(),
    }
}

/// No two tools share a name.
pub proof fn tool_names_are_distinct(a: Tool, b: Tool)
    requires
        tool_text(a) == tool_text(b),
    ensures
        a == b,
{
    reveal_strlit("ecal_list_publishers");
    reveal_strlit("ecal_list_subscribers");
    reveal_strlit("ecal_list_services");
    reveal_strlit("ecal_list_service_clients");
    reveal_strlit("ecal_list_processes");
    reveal_strlit("ecal_list_hosts");
    reveal_strlit("ecal_get_monitoring");
    reveal_strlit("ecal_get_logs");
    reveal_strlit("ecal_publish");
    reveal_strlit("ecal_subscribe");
    reveal_strlit("ecal_call_service");
    reveal_strlit("ecal_topic_stats");
    reveal_strlit("ecal_diagnose_topic");
    let x = tool_text(a);
    let y = tool_text(b);
    assert(x.len() == y.len());
    assert(x[5] == y[5]);
    assert(x[9] == y[9]);
    assert(x[10] == y[10]);
    assert(x.last() == y.last());
}

/// The wording of a tool that is not known; `quoted` is the name as `Debug` writes it.
pub open spec fn unknown_tool_text(quoted: Seq<char>) -> Seq<char> {
    "unknown tool "@ + quoted + "; run `ecal-mcp tools` to list available tools"@
}

/// Words a tool that is not known.
pub fn unknown_tool_message(quoted: &str) -> (r: String)
    ensures
        r@ == unknown_tool_text(quoted@),
{
    let mut r = "unknown tool ".to_owned();
    r.append(quoted);
    r.append("; run `ecal-mcp tools` to list available tools");
    r
}

/// Some tool has this name.
pub open spec fn is_tool_name(name: Seq<char>) -> bool {
    exists|t: Tool| #[trigger] tool_text(t) == name
}

/// The tool of a name, by the name alone.
pub fn dispatch(tool: &str) -> (r: Result<Tool, String>)
    ensures
        match r {
            Ok(t) => tool_text(t) == tool@,
            Err(e) => !is_tool_name(tool@) && e@ == unknown_tool_text(debug_form(tool@)),
        },
{
    if same_text(tool, "ecal_list_publishers") {
        Ok(Tool::ListPublishers)
    } else if same_text(tool, "ecal_list_subscribers") {
        Ok(Tool::ListSubscribers)
    } else if same_text(tool, "ecal_list_services") {
        Ok(Tool::ListServices)
    } else if same_text(tool, "ecal_list_service_clients") {
        Ok(Tool::ListServiceClients)
    } else if same_text(tool, "ecal_list_processes") {
        Ok(Tool::ListProcesses)
    } else if same_text(tool, "ecal_list_hosts") {
        Ok(Tool::ListHosts)
    } else if same_text(tool, "ecal_get_monitoring") {
        Ok(Tool::GetMonitoring)
    } else if same_text(tool, "ecal_get_logs") {
        Ok(Tool::GetLogs)
    } else if same_text(tool, "ecal_publish") {
        Ok(Tool::Publish)
    } else if same_text(tool, "ecal_subscribe") {
        Ok(Tool::Subscribe)
    } else if same_text(tool, "ecal_call_service") {
        Ok(Tool::CallService)
    } else if same_text(tool, "ecal_topic_stats") {
        Ok(Tool::TopicStats)
    } else if same_text(tool, "ecal_diagnose_topic") {
        Ok(Tool::DiagnoseTopic)
    } else {
        Err(unknown_tool_message(quoted(tool).as_str()))
    }
}

/// One tool as the manifest shows it.
#[derive(Debug)]
pub struct ToolEntry {
    pub name: String,
    pub description: Option<String>,
    pub input_schema: Value,
}

/// The names of entries.
pub open spec fn entry_names(entries: Seq<ToolEntry>) -> Set<Seq<char>> {
    entries.map_values(|e: ToolEntry| e.name@).to_set()
}

/// The place of a name among the distinct names of entries, in order.
pub open spec fn name_rank(names: Set<Seq<char>>, name: Seq<char>) -> i128 {
    listing(names).index_of(name) as i128
}

/// The entries in the order of their names; entries of one name stay in order.
pub open spec fn manifest(entries: Seq<ToolEntry>) -> Seq<ToolEntry> {
    sorted_by_key(entries, |e: ToolEntry| name_rank(entry_names(entries), e.name@))
}

fn entry_name(e: &ToolEntry) -> (r: String)
    ensures
        r@ == e.name@,
{
    e.name.clone()
}

/// The manifest: the registered tools as they are, in the order of their names.
pub fn tools_manifest(entries: Vec<ToolEntry>) -> (r: Vec<ToolEntry>)
    ensures
        r@ == manifest(entries@),
{
    let ghost all = entries@.map_values(|e: ToolEntry| e.name@);
    let ghost names = entry_names(entries@);
    let ghost key = |e: ToolEntry| name_rank(names, e.name@);
    let own = map_rows(entries.as_slice(), entry_name);
    assert(texts(own@) =~= all);
    let list = text_set(&own);
    proof {
        sorted_list_is_listing(list@, names);
    }
    let mut ranks: Vec<i128> = Vec::new();
    let mut i: usize = 0;
    while i < entries.len()
        invariant
            i <= entries.len(),
            all == entries@.map_values(|e: ToolEntry| e.name@),
            names == all.to_set(),
            key == (|e: ToolEntry| name_rank(names, e.name@)),
            strictly_sorted(texts(list@)),
            texts(list@).to_set() == names,
            texts(list@) == listing(names),
            ranks.len() == i,
            forall|k: int| 0 <= k < i ==> #[trigger] ranks@[k] == key(entries@[k]),
        decreases entries.len() - i,
    {
        let rank: usize = place_of(&list, entries[i].name.as_str());
        proof {
            let name = entries@[i as int].name@;
            assert(all[i as int] == name);
            assert(all.contains(name));
            assert(texts(list@).to_set().contains(name));
            assert(texts(list@).contains(name));
            assert(texts(list@)[rank as int] == name);
            lemma_index(texts(list@), name, rank as int);
        }
        ranks.push(rank as i128);
        i += 1;
    }
    let items = zip_keys(ranks, entries);
    assert(items@ =~= keyed(entries@, key));
    sort_items(items)
}

proof fn lemma_index(s: Seq<Seq<char>>, x: Seq<char>, i: int)
    requires
        strictly_sorted(s),
        0 <= i < s.len(),
        s[i] == x,
    ensures
        s.index_of(x) == i,
{
    let j = s.index_of(x);
    assert(s.contains(x));
    assert(0 <= j < s.len() && s[j] == x);
    text_order_is_total(x, x);
    if i < j {
        assert(text_before(s[i], s[j]));
    } else if j < i {
        assert(text_before(s[j], s[i]));
    }
}

/// The manifest shows every registered tool once, and in the order of the names.
pub proof fn manifest_is_complete_and_sorted(entries: Seq<ToolEntry>)
    requires
        entries.len() <= usize::MAX,
    ensures
        manifest(entries).to_multiset() == entries.to_multiset(),
        manifest(entries).len() == entries.len(),
        forall|i: int, j: int|
            0 <= i < j < manifest(entries).len() ==> {
                let a = (#[trigger] manifest(entries)[i]).name@;
                let b = (#[trigger] manifest(entries)[j]).name@;
                a == b || text_before(a, b)
            },
{
    let all = entries.map_values(|e: ToolEntry| e.name@);
    let names = entry_names(entries);
    let key = |e: ToolEntry| name_rank(names, e.name@);
    let l = listing(names);
    let m = manifest(entries);
    listing_exists(all);
    lemma_listing_len(l, all);
    sorting_by_key_is_stable(entries, key);
    assert forall|i: int| 0 <= i < m.len() implies {
        let k = key(#[trigger] m[i]);
        0 <= k < l.len() && l[k as int] == m[i].name@
    } by {
        assert(m.contains(m[i]));
        let k = choose|k: int| 0 <= k < entries.len() && entries[k] == m[i];
        let name = entries[k].name@;
        assert(all[k] == name);
        assert(all.contains(name));
        assert(l.to_set().contains(name));
        assert(l.contains(name));
        let at = l.index_of(name);
        assert(0 <= at < l.len() && l[at] == name);
    }
    assert forall|i: int, j: int| 0 <= i < j < m.len() implies {
        let a = (#[trigger] m[i]).name@;
        let b = (#[trigger] m[j]).name@;
        a == b || text_before(a, b)
    } by {
        assert(key(sorted_by_key(entries, key)[i]) <= key(sorted_by_key(entries, key)[j]));
        if key(m[i]) < key(m[j]) {
            assert(text_before(l[key(m[i]) as int], l[key(m[j]) as int]));
        }
    }
}

/// A listing is no longer than what it lists.
proof fn lemma_listing_len(l: Seq<Seq<char>>, s: Seq<Seq<char>>)
    requires
        strictly_sorted(l),
        l.to_set() == s.to_set(),
    ensures
        l.len() <= s.len(),
{
    assert(l.no_duplicates()) by {
        assert forall|i: int, j: int| 0 <= i < j < l.len() implies l[i] != l[j] by {
            assert(text_before(l[i], l[j]));
            text_order_is_total(l[i], l[j]);
        }
    }
    l.unique_seq_to_set();
    s.lemma_cardinality_of_set();
}

/// Every tool is found by its own name.
pub proof fn tools_are_found_by_name(tool: Tool, r: Result<Tool, String>)
    requires
        match r {
            Ok(t) => tool_text(t) == tool_text(tool),
            Err(_) => !is_tool_name(tool_text(tool)),
        },
    ensures
        r == Ok::<Tool, String>(tool),
{
    if r is Ok {
        tool_names_are_distinct(r->Ok_0, tool);
    }
}

} // verus!
