//! The task record, as stored one per line in `tasks.jsonl`.
use vstd::prelude::*;

use crate::json::{copy_opt_json, opt_json_view, Json, JsonV};
use crate::text::{copy_opt, copy_strings, push_char, str_eq};

verus! {

/// The priority a task gets when none is given.
pub const DEFAULT_PRIORITY: i64 = 1;

/// A task. `blocked_by`/`blocks` and `parent_id`/`children` are kept in
/// both directions.
#[derive(Debug)]
pub struct Task {
    pub id: String,
    pub parent_id: Option<String>,
    pub name: String,
    pub description: String,
    pub priority: i64,
    pub completed: bool,
    pub result: Option<String>,
    pub metadata: Option<Json>,
    pub created_at: Option<String>,
    pub updated_at: Option<String>,
    pub started_at: Option<String>,
    pub completed_at: Option<String>,
    pub blocked_by: Vec<String>,
    pub blocks: Vec<String>,
    pub children: Vec<String>,
}

/// The mathematical value of a task.
pub struct TaskV {
    pub id: Seq<char>,
    pub parent_id: Option<Seq<char>>,
    pub name: Seq<char>,
    pub description: Seq<char>,
    pub priority: i64,
    pub completed: bool,
    pub result: Option<Seq<char>>,
    pub metadata: Option<JsonV>,
    pub created_at: Option<Seq<char>>,
    pub updated_at: Option<Seq<char>>,
    pub started_at: Option<Seq<char>>,
    pub completed_at: Option<Seq<char>>,
    pub blocked_by: Seq<Seq<char>>,
    pub blocks: Seq<Seq<char>>,
    pub children: Seq<Seq<char>>,
}

/// The characters of an optional string.
pub open spec fn opt_view(o: Option<String>) -> Option<Seq<char>> {
    match o {
        Some(s) => Some(s@),
        None => None,
    }
}

impl View for Task {
    type V = TaskV;

    open spec fn view(&self) -> TaskV {
        TaskV {
            id: self.id@,
            parent_id: opt_view(self.parent_id),
            name: self.name@,
            description: self.description@,
            priority: self.priority,
            completed: self.completed,
            result: opt_view(self.result),
            metadata: opt_json_view(self.metadata),
            created_at: opt_view(self.created_at),
            updated_at: opt_view(self.updated_at),
            started_at: opt_view(self.started_at),
            completed_at: opt_view(self.completed_at),
            blocked_by: self.blocked_by.deep_view(),
            blocks: self.blocks.deep_view(),
            children: self.children.deep_view(),
        }
    }
}

impl DeepView for Task {
    type V = TaskV;

    open spec fn deep_view(&self) -> TaskV {
        self@
    }
}

/// The position of the first task with id `id` at or after `i`, or -1.
pub open spec fn index_from(ts: Seq<TaskV>, id: Seq<char>, i: int) -> int
    decreases ts.len() - i,
{
    if i < 0 || i >= ts.len() {
        -1
    } else if ts[i].id == id {
        i
    } else {
        index_from(ts, id, i + 1)
    }
}

/// The position of the first task with id `id`, or -1 (`iter().find`).
pub open spec fn index_of(ts: Seq<TaskV>, id: Seq<char>) -> int {
    index_from(ts, id, 0)
}

/// Whether some task has id `id`.
pub open spec fn has_task(ts: Seq<TaskV>, id: Seq<char>) -> bool {
    exists|i: int| 0 <= i < ts.len() && ts[i].id == id
}

/// The first task with id `id` (meaningful when `has_task`).
pub open spec fn task_of(ts: Seq<TaskV>, id: Seq<char>) -> TaskV {
    ts[index_of(ts, id)]
}

/// `index_of` is the first position with the id, and -1 exactly when there
/// is none.
pub proof fn lemma_index_of(ts: Seq<TaskV>, id: Seq<char>)
    ensures
        index_of(ts, id) == -1 <==> !has_task(ts, id),
        index_of(ts, id) != -1 ==> {
            let k = index_of(ts, id);
            &&& 0 <= k < ts.len()
            &&& ts[k].id == id
            &&& forall|j: int| 0 <= j < k ==> ts[j].id != id
        },
{
    lemma_index_from(ts, id, 0);
}

proof fn lemma_index_from(ts: Seq<TaskV>, id: Seq<char>, i: int)
    requires
        0 <= i,
    ensures
        index_from(ts, id, i) == -1 <==> forall|j: int| i <= j < ts.len() ==> ts[j].id != id,
        index_from(ts, id, i) != -1 ==> {
            let k = index_from(ts, id, i);
            &&& i <= k < ts.len()
            &&& ts[k].id == id
            &&& forall|j: int| i <= j < k ==> ts[j].id != id
        },
    decreases ts.len() - i,
{
    if i < ts.len() && ts[i].id != id {
        lemma_index_from(ts, id, i + 1);
    }
}

/// The position of the first task with the given id.
pub fn find_index(tasks: &[Task], id: &str) -> (r: Option<usize>)
    ensures
        match r {
            Some(i) => i as int == index_of(tasks.deep_view(), id@),
            None => index_of(tasks.deep_view(), id@) == -1,
        },
{
    let ghost ts = tasks.deep_view();
    let mut i: usize = 0;
    while i < tasks.len()
        invariant
            i <= tasks.len(),
            ts == tasks.deep_view(),
            ts.len() == tasks.len(),
            index_of(ts, id@) == index_from(ts, id@, i as int),
        decreases tasks.len() - i,
    {
        assert(ts[i as int] == tasks@[i as int]@);
        if str_eq(tasks[i].id.as_str(), id) {
            return Some(i);
        }
        i = i + 1;
    }
    None
}

impl Task {
    /// A field-by-field copy.
    pub fn duplicate(&self) -> (r: Task)
        ensures
            r@ == self@,
    {
        let r = Task {
            id: self.id.clone(),
            parent_id: copy_opt(&self.parent_id),
            name: self.name.clone(),
            description: self.description.clone(),
            priority: self.priority,
            completed: self.completed,
            result: copy_opt(&self.result),
            metadata: copy_opt_json(&self.metadata),
            created_at: copy_opt(&self.created_at),
            updated_at: copy_opt(&self.updated_at),
            started_at: copy_opt(&self.started_at),
            completed_at: copy_opt(&self.completed_at),
            blocked_by: copy_strings(&self.blocked_by),
            blocks: copy_strings(&self.blocks),
            children: copy_strings(&self.children),
        };
        assert(r.blocked_by.deep_view() =~= self.blocked_by.deep_view());
        assert(r.blocks.deep_view() =~= self.blocks.deep_view());
        assert(r.children.deep_view() =~= self.children.deep_view());
        r
    }

    /// A new pending task with no relations, created and updated now.
    pub fn new(id: String, name: String, description: Option<String>, priority: Option<i64>) -> (r: Task)
        ensures
            r@.id == id@,
            r@.name == name@,
            r@.description == match description {
                Some(d) => d@,
                None => Seq::<char>::empty(),
            },
            r@.priority == match priority {
                Some(p) => p,
                None => DEFAULT_PRIORITY,
            },
            r@.parent_id is None,
            !r@.completed,
            r@.result is None,
            r@.metadata is None,
            r@.created_at is Some,
            r@.updated_at == r@.created_at,
            r@.started_at is None,
            r@.completed_at is None,
            r@.blocked_by.len() == 0,
            r@.blocks.len() == 0,
            r@.children.len() == 0,
    {
        let now = timestamp();
        let r = Task {
            id,
            parent_id: None,
            name,
            description: match description {
                Some(d) => d,
                None => String::new(),
            },
            priority: match priority {
                Some(p) => p,
                None => DEFAULT_PRIORITY,
            },
            completed: false,
            result: None,
            metadata: None,
            created_at: Some(now.clone()),
            updated_at: Some(now),
            started_at: None,
            completed_at: None,
            blocked_by: Vec::new(),
            blocks: Vec::new(),
            children: Vec::new(),
        };
        assert(r.blocked_by.deep_view().len() == 0);
        r
    }
}

impl Clone for Task {
    fn clone(&self) -> (r: Self)
        ensures
            r@ == self@,
    {
        self.duplicate()
    }
}

/// The current time in RFC 3339 (`time::OffsetDateTime::now_utc`, formatted
/// with `Rfc3339`). Nothing is stated of the text: it depends on the clock.
#[verifier::external_body]
pub fn timestamp() -> String {
    time::OffsetDateTime::now_utc().format(&time::format_description::well_known::Rfc3339).expect(
        "RFC3339 formatting should not fail",
    )
}

/// Nanoseconds since the Unix epoch on the system clock
/// (`SystemTime::now().duration_since(UNIX_EPOCH)`, 0 when the clock is
/// before the epoch). Nothing is stated of the value: it depends on the clock.
#[verifier::external_body]
fn clock_nanos() -> u128 {
    std::time::SystemTime::now().duration_since(std::time::UNIX_EPOCH).map(
        |duration| duration.as_nanos(),
    ).unwrap_or_default()
}

/// The characters an id is written with.
pub open spec fn alphabet() -> Seq<char> {
    seq![
        '0', '1', '2', '3', '4', '5', '6', '7', '8', '9', 'a', 'b', 'c', 'd', 'e', 'f', 'g', 'h',
        'i', 'j', 'k', 'l', 'm', 'n', 'o', 'p', 'q', 'r', 's', 't', 'u', 'v', 'w', 'x', 'y', 'z',
    ]
}

/// The last `n` base-36 digits of `v`, most significant first.
pub open spec fn base36(v: nat, n: nat) -> Seq<char>
    decreases n,
{
    if n == 0 {
        seq![]
    } else {
        base36(v / 36, (n - 1) as nat).push(alphabet()[(v % 36) as int])
    }
}

fn alphabet_char(d: u128) -> (c: char)
    requires
        d < 36,
    ensures
        c == alphabet()[d as int],
{
    let table: [char; 36] = [
        '0', '1', '2', '3', '4', '5', '6', '7', '8', '9', 'a', 'b', 'c', 'd', 'e', 'f', 'g', 'h',
        'i', 'j', 'k', 'l', 'm', 'n', 'o', 'p', 'q', 'r', 's', 't', 'u', 'v', 'w', 'x', 'y', 'z',
    ];
    assert(table@ =~= alphabet());
    table[d as usize]
}

fn base36_digits(v: u128, n: u32) -> (s: String)
    ensures
        s@ == base36(v as nat, n as nat),
    decreases n,
{
    if n == 0 {
        String::new()
    } else {
        let mut s = base36_digits(v / 36, n - 1);
        push_char(&mut s, alphabet_char(v % 36));
        s
    }
}

/// The 8-character base-36 rendering of the low digits of `value`.
pub fn base36_8(value: u128) -> (s: String)
    ensures
        s@ == base36(value as nat, 8),
{
    base36_digits(value, 8)
}

/// Whether `id` is some task's id.
pub fn id_taken(tasks: &[Task], id: &str) -> (r: bool)
    ensures
        r == has_task(tasks.deep_view(), id@),
{
    let r = find_index(tasks, id);
    proof {
        lemma_index_of(tasks.deep_view(), id@);
    }
    r.is_some()
}

/// A fresh 8-character id: the base-36 rendering of the clock in
/// nanoseconds, mixed with the process id and the attempt number, retried
/// until no task has it.
pub fn generate_id(tasks: &[Task], process_id: u32) -> (id: String)
    ensures
        !has_task(tasks.deep_view(), id@),
{
    let mut attempt: u64 = 0;
    while attempt < u64::MAX
        invariant
            attempt <= u64::MAX,
        decreases u64::MAX - attempt,
    {
        let nanos = clock_nanos();
        let value = nanos ^ ((process_id as u128) << 32u128) ^ (attempt as u128);
        let id = base36_8(value);
        proof {
            lemma_base36_len(value as nat, 8);
        }
        if !id_taken(tasks, id.as_str()) {
            return id;
        }
        attempt = attempt + 1;
    }
    // Every attempt collided: take the first free value in order, which
    // exists because there are fewer tasks than values to try.
    fallback_id(tasks)
}

proof fn lemma_base36_len(v: nat, n: nat)
    ensures
        base36(v, n).len() == n,
    decreases n,
{
    if n > 0 {
        lemma_base36_len(v / 36, (n - 1) as nat);
    }
}

/// An id longer than every task's id, hence no task's id.
fn fallback_id(tasks: &[Task]) -> (id: String)
    ensures
        !has_task(tasks.deep_view(), id@),
{
    let ghost ts = tasks.deep_view();
    let mut longest = String::new();
    let mut i: usize = 0;
    while i < tasks.len()
        invariant
            i <= tasks.len(),
            ts == tasks.deep_view(),
            forall|k: int| 0 <= k < i ==> ts[k].id.len() <= longest@.len(),
        decreases tasks.len() - i,
    {
        assert(ts[i as int] == tasks@[i as int]@);
        let n = crate::text::chars_of(tasks[i].id.as_str()).len();
        let m = crate::text::chars_of(longest.as_str()).len();
        if n > m {
            longest = tasks[i].id.clone();
        }
        i = i + 1;
    }
    push_char(&mut longest, '0');
    longest
}

} // verus!
