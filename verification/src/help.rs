//! The help text, and the suggestion offered for a mistyped command.
use vstd::prelude::*;

use crate::listing::lowercase;
use crate::text::{chars_of, push_str};

verus! {

/// The commands a mistyped command is compared with, in order.
pub open spec fn commands() -> Seq<Seq<char>> {
    seq!["create"@, "list"@, "ls"@, "show"@, "edit"@, "update"@, "complete"@, "done"@, "delete"@, "rm"@, "remove"@, "archive"@, "plan"@, "sync"@, "import"@, "export"@, "doctor"@, "status"@, "config"@, "help"@, "mcp"@, "completion"@]
}

/// How many commands there are.
pub const COMMAND_COUNT: usize = 22;

/// The command at a position of `commands`.
pub fn command(i: usize) -> (r: &'static str)
    requires
        i < COMMAND_COUNT,
    ensures
        r@ == commands()[i as int],
{
    match i {
        0 => "create",
        1 => "list",
        2 => "ls",
        3 => "show",
        4 => "edit",
        5 => "update",
        6 => "complete",
        7 => "done",
        8 => "delete",
        9 => "rm",
        10 => "remove",
        11 => "archive",
        12 => "plan",
        13 => "sync",
        14 => "import",
        15 => "export",
        16 => "doctor",
        17 => "status",
        18 => "config",
        19 => "help",
        20 => "mcp",
        _ => "completion",
    }
}

/// The edit distance of the first `i` characters of `a` and the first `j`
/// of `b`: the fewest insertions, deletions and substitutions turning one
/// into the other.
pub open spec fn lev(a: Seq<char>, b: Seq<char>, i: nat, j: nat) -> nat
    decreases i, j,
{
    if i == 0 {
        j
    } else if j == 0 {
        i
    } else {
        let sub = lev(a, b, (i - 1) as nat, (j - 1) as nat) + if a[i - 1] != b[j - 1] {
            1nat
        } else {
            0nat
        };
        let del = lev(a, b, (i - 1) as nat, j) + 1;
        let ins = lev(a, b, i, (j - 1) as nat) + 1;
        if sub <= del && sub <= ins {
            sub
        } else if del <= ins {
            del
        } else {
            ins
        }
    }
}

/// The Levenshtein distance between two texts.
pub open spec fn distance(a: Seq<char>, b: Seq<char>) -> nat {
    lev(a, b, a.len(), b.len())
}

proof fn lemma_lev_bound(a: Seq<char>, b: Seq<char>, i: nat, j: nat)
    ensures
        lev(a, b, i, j) <= if i >= j {
            i
        } else {
            j
        },
    decreases i, j,
{
    if i > 0 && j > 0 {
        lemma_lev_bound(a, b, (i - 1) as nat, (j - 1) as nat);
    }
}

/// The Levenshtein distance between two texts (one row of the table at a
/// time).
pub fn levenshtein(a: &str, b: &str) -> (r: usize)
    ensures
        r == distance(a@, b@),
{
    let x = chars_of(a);
    let y = chars_of(b);
    let mut previous: Vec<u128> = Vec::new();
    let mut j: usize = 0;
    while j < y.len()
        invariant
            j <= y.len(),
            previous.len() == j,
            forall|k: int| 0 <= k < j ==> #[trigger] previous@[k] == lev(x@, y@, 0, k as nat),
        decreases y.len() - j,
    {
        previous.push(j as u128);
        j = j + 1;
    }
    previous.push(y.len() as u128);
    let mut i: usize = 0;
    while i < x.len()
        invariant
            i <= x.len(),
            previous.len() == y.len() + 1,
            forall|k: int| 0 <= k <= y.len() ==> #[trigger] previous@[k] == lev(x@, y@, i as nat, k as nat),
        decreases x.len() - i,
    {
        let mut current: Vec<u128> = Vec::new();
        current.push((i + 1) as u128);
        let mut j: usize = 0;
        while j < y.len()
            invariant
                i < x.len(),
                j <= y.len(),
                previous.len() == y.len() + 1,
                current.len() == j + 1,
                forall|k: int| 0 <= k <= y.len() ==> #[trigger] previous@[k] == lev(x@, y@, i as nat, k as nat),
                forall|k: int| 0 <= k <= j ==> #[trigger] current@[k] == lev(x@, y@, (i + 1) as nat, k as nat),
            decreases y.len() - j,
        {
            proof {
                lemma_lev_bound(x@, y@, i as nat, j as nat);
                lemma_lev_bound(x@, y@, i as nat, (j + 1) as nat);
                lemma_lev_bound(x@, y@, (i + 1) as nat, j as nat);
            }
            let cost: u128 = if x[i] != y[j] {
                1
            } else {
                0
            };
            let sub = previous[j] + cost;
            let del = previous[j + 1] + 1;
            let ins = current[j] + 1;
            let best = if sub <= del && sub <= ins {
                sub
            } else if del <= ins {
                del
            } else {
                ins
            };
            current.push(best);
            j = j + 1;
        }
        previous = current;
        i = i + 1;
    }
    proof {
        lemma_lev_bound(x@, y@, x@.len(), y@.len());
    }
    previous[y.len()] as usize
}

/// The command a mistyped one was probably meant to be.
pub fn suggestion(input: &str) -> (r: Option<&'static str>)
    ensures
        match r {
            Some(c) => exists|k: int|
                0 <= k < commands().len() && c@ == commands()[k] && distance(lowercase(input@), commands()[k]) <= 2
                    && forall|m: int|
                    0 <= m < commands().len() ==> distance(lowercase(input@), commands()[k]) < distance(
                        lowercase(input@),
                        #[trigger] commands()[m],
                    ) || (distance(lowercase(input@), commands()[k]) <= distance(lowercase(input@), commands()[m]) && k <= m),
            None => forall|m: int| 0 <= m < commands().len() ==> distance(lowercase(input@), #[trigger] commands()[m]) > 2,
        },
{
    let lower = crate::listing::to_lower(input);
    let ghost l = lower@;
    let mut best: Option<(usize, usize)> = None;
    let mut i: usize = 0;
    while i < COMMAND_COUNT
        invariant
            i <= COMMAND_COUNT,
            l == lowercase(input@),
            lower@ == l,
            commands().len() == COMMAND_COUNT,
            match best {
                Some((k, d)) => k < i && d == distance(l, commands()[k as int]) && d <= 2 && forall|m: int|
                    0 <= m < i ==> d < distance(l, #[trigger] commands()[m]) || (d <= distance(l, commands()[m]) && k <= m),
                None => forall|m: int| 0 <= m < i ==> distance(l, #[trigger] commands()[m]) > 2,
            },
        decreases COMMAND_COUNT - i,
    {
        let c = command(i);
        let d = levenshtein(lower.as_str(), c);
        assert(d == distance(l, commands()[i as int]));
        let better = match best {
            None => d <= 2,
            Some((_, bd)) => d < bd,
        };
        if better {
            best = Some((i, d));
        }
        i = i + 1;
    }
    match best {
        Some((k, _)) => Some(command(k)),
        None => None,
    }
}

/// The usage text, with `name` as the program's name.
pub open spec fn text_spec(name: Seq<char>) -> Seq<char> {
    "Task tracking tool\n\nUSAGE:\n  "@ + name + " <command> [options]\n\nCOMMANDS:\n  init                             Create config file (~/.config/dex/dex.toml)\n  config <key>[=<value>]           Get or set config values\n  dir                              Print task storage directory\n  dir --global                     Print global dex config directory\n  mcp                              Start MCP server (stdio)\n  status                           Show dashboard overview (default)\n  create \"name\" [--description \"...\"]  Create task\n  add                                   Alias for create command\n  list, ls                         List all pending tasks (tree view)\n  list --flat                      List without tree hierarchy\n  list --all                       Include completed tasks\n  list --archived                  List archived tasks\n  list --in-progress               List only in-progress tasks\n  list --query \"login\"             Search name/description\n  list --json                      Output as JSON (for scripts)\n  show <id>...                     View task details (truncated)\n  show <id> --expand               Show ancestor descriptions in tree\n  show <id> --full                 View full description and result\n  show <id> --json                 Output as JSON (for scripts)\n  edit <id> [-n \"...\"]             Edit task\n  edit <id> --commit <sha>         Link commit to completed task\n  update                           Alias for edit command\n  start <id>                       Mark task as in progress\n  start <id> --force               Re-claim task already in progress\n  complete <id> --result \"...\" [--commit <sha>|--no-commit]\n                                     Mark completed with result\n  complete <id> ... --force        Bypass validation (e.g., incomplete subtasks)\n  done                             Alias for complete command\n  delete <id>                      Remove task (refuses if has subtasks)\n  delete <id> -f                   Force delete including subtasks\n  rm, remove                       Aliases for delete command\n  archive <id>                     Archive completed task to reduce storage\n  archive --older-than 60d         Archive tasks completed >60 days ago\n  archive --completed              Archive ALL completed tasks\n  plan <file>                      Create task from plan markdown file\n  sync [id]                        Push tasks to GitHub/Shortcut\n  sync --github                    Sync only to GitHub Issues\n  sync --shortcut                  Sync only to Shortcut Stories\n  import #N                        Import GitHub issue\n  import sc#N                      Import Shortcut story\n  import --all                     Import all dex-labeled items\n  export <id>...                   Export tasks to GitHub (no sync back)\n  doctor [--fix]                   Check and repair configuration and storage\n  completion <shell>               Generate shell completion script\n\nGLOBAL OPTIONS:\n  --version, -V                    Show version and exit\n  --help, -h                       Show this help message\n  --config <path>                  Use custom config file\n  --storage-path <path>            Override storage file location\n\nCOMMAND OPTIONS:\n  -p, --priority <n>               Task priority (lower = higher priority)\n  --parent <id>                    Parent task (creates subtask)\n  --json                           Output as JSON (list, show)\n\nEXAMPLES:\n  # Create with detailed description (requirements, approach, done criteria):\n  "@ + name + " create \"Add user auth\" --description \"Requirements:\n    - JWT with refresh tokens\n    - bcrypt for passwords\n    Approach: /login, /register endpoints\n    Done when: users can register/login, tests pass\"\n\n  # Create simple task (description optional):\n  "@ + name + " create \"Fix login bug\"\n\n  # Complete with detailed result and commit link:\n  "@ + name + " complete abc123 --result \"Added JWT auth:\n    - /login, /register, /logout endpoints\n    - bcrypt cost=12, 15min access tokens\n    Decisions: JWT over sessions for scaling\n    Follow-up: add email verification\" --commit a1b2c3d\n\n  # Complete without code changes (issue stays open):\n  "@ + name + " complete abc123 --result \"Planning complete\" --no-commit\n\n  # Create task from planning session:\n  "@ + name + " plan ~/plans/my-plan.md\n\n  # Other common operations:\n  "@ + name + " list --json | jq '.[] | .id'\n  "@ + name + " create \"Subtask\" --description \"...\" --parent abc123\n\n  # Sync tasks to external services:\n  "@ + name + " sync                          # Sync to all configured services\n  "@ + name + " sync --github                 # Sync only to GitHub\n  "@ + name + " sync --shortcut               # Sync only to Shortcut\n  "@ + name + " sync --dry-run                # Preview what would be synced\n\n  # Import from external services:\n  "@ + name + " import #42                    # Import GitHub issue #42\n  "@ + name + " import sc#123                 # Import Shortcut story #123\n  "@ + name + " import --all                  # Import all dex-labeled items\n  "@ + name + " import --all --shortcut       # Import only from Shortcut\n"@
}

/// The usage text, with `name` as the program's name.
pub fn text(name: &str) -> (r: String)
    ensures
        r@ == text_spec(name@),
{
    let mut out = String::new();
    push_str(&mut out, "Task tracking tool\n\nUSAGE:\n  ");
    push_str(&mut out, name);
    push_str(&mut out, " <command> [options]\n\nCOMMANDS:\n  init                             Create config file (~/.config/dex/dex.toml)\n  config <key>[=<value>]           Get or set config values\n  dir                              Print task storage directory\n  dir --global                     Print global dex config directory\n  mcp                              Start MCP server (stdio)\n  status                           Show dashboard overview (default)\n  create \"name\" [--description \"...\"]  Create task\n  add                                   Alias for create command\n  list, ls                         List all pending tasks (tree view)\n  list --flat                      List without tree hierarchy\n  list --all                       Include completed tasks\n  list --archived                  List archived tasks\n  list --in-progress               List only in-progress tasks\n  list --query \"login\"             Search name/description\n  list --json                      Output as JSON (for scripts)\n  show <id>...                     View task details (truncated)\n  show <id> --expand               Show ancestor descriptions in tree\n  show <id> --full                 View full description and result\n  show <id> --json                 Output as JSON (for scripts)\n  edit <id> [-n \"...\"]             Edit task\n  edit <id> --commit <sha>         Link commit to completed task\n  update                           Alias for edit command\n  start <id>                       Mark task as in progress\n  start <id> --force               Re-claim task already in progress\n  complete <id> --result \"...\" [--commit <sha>|--no-commit]\n                                     Mark completed with result\n  complete <id> ... --force        Bypass validation (e.g., incomplete subtasks)\n  done                             Alias for complete command\n  delete <id>                      Remove task (refuses if has subtasks)\n  delete <id> -f                   Force delete including subtasks\n  rm, remove                       Aliases for delete command\n  archive <id>                     Archive completed task to reduce storage\n  archive --older-than 60d         Archive tasks completed >60 days ago\n  archive --completed              Archive ALL completed tasks\n  plan <file>                      Create task from plan markdown file\n  sync [id]                        Push tasks to GitHub/Shortcut\n  sync --github                    Sync only to GitHub Issues\n  sync --shortcut                  Sync only to Shortcut Stories\n  import #N                        Import GitHub issue\n  import sc#N                      Import Shortcut story\n  import --all                     Import all dex-labeled items\n  export <id>...                   Export tasks to GitHub (no sync back)\n  doctor [--fix]                   Check and repair configuration and storage\n  completion <shell>               Generate shell completion script\n\nGLOBAL OPTIONS:\n  --version, -V                    Show version and exit\n  --help, -h                       Show this help message\n  --config <path>                  Use custom config file\n  --storage-path <path>            Override storage file location\n\nCOMMAND OPTIONS:\n  -p, --priority <n>               Task priority (lower = higher priority)\n  --parent <id>                    Parent task (creates subtask)\n  --json                           Output as JSON (list, show)\n\nEXAMPLES:\n  # Create with detailed description (requirements, approach, done criteria):\n  ");
    push_str(&mut out, name);
    push_str(&mut out, " create \"Add user auth\" --description \"Requirements:\n    - JWT with refresh tokens\n    - bcrypt for passwords\n    Approach: /login, /register endpoints\n    Done when: users can register/login, tests pass\"\n\n  # Create simple task (description optional):\n  ");
    push_str(&mut out, name);
    push_str(&mut out, " create \"Fix login bug\"\n\n  # Complete with detailed result and commit link:\n  ");
    push_str(&mut out, name);
    push_str(&mut out, " complete abc123 --result \"Added JWT auth:\n    - /login, /register, /logout endpoints\n    - bcrypt cost=12, 15min access tokens\n    Decisions: JWT over sessions for scaling\n    Follow-up: add email verification\" --commit a1b2c3d\n\n  # Complete without code changes (issue stays open):\n  ");
    push_str(&mut out, name);
    push_str(&mut out, " complete abc123 --result \"Planning complete\" --no-commit\n\n  # Create task from planning session:\n  ");
    push_str(&mut out, name);
    push_str(&mut out, " plan ~/plans/my-plan.md\n\n  # Other common operations:\n  ");
    push_str(&mut out, name);
    push_str(&mut out, " list --json | jq '.[] | .id'\n  ");
    push_str(&mut out, name);
    push_str(&mut out, " create \"Subtask\" --description \"...\" --parent abc123\n\n  # Sync tasks to external services:\n  ");
    push_str(&mut out, name);
    push_str(&mut out, " sync                          # Sync to all configured services\n  ");
    push_str(&mut out, name);
    push_str(&mut out, " sync --github                 # Sync only to GitHub\n  ");
    push_str(&mut out, name);
    push_str(&mut out, " sync --shortcut               # Sync only to Shortcut\n  ");
    push_str(&mut out, name);
    push_str(&mut out, " sync --dry-run                # Preview what would be synced\n\n  # Import from external services:\n  ");
    push_str(&mut out, name);
    push_str(&mut out, " import #42                    # Import GitHub issue #42\n  ");
    push_str(&mut out, name);
    push_str(&mut out, " import sc#123                 # Import Shortcut story #123\n  ");
    push_str(&mut out, name);
    push_str(&mut out, " import --all                  # Import all dex-labeled items\n  ");
    push_str(&mut out, name);
    push_str(&mut out, " import --all --shortcut       # Import only from Shortcut\n");
    assert(out@ =~= text_spec(name@));
    out
}

} // verus!
