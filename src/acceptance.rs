use vstd::prelude::*;

use crate::lines::{lines, split_chars, split_lines, split_on};
use crate::text::{
    char_views, chars_of, contains, eq_ignore_ascii_case, eq_ignore_ascii_case_chars, has_prefix, includes,
    is_space, is_space_char, slice, starts_with, string_of, trim, trim_start, trimmed,
    trimmed_start,
};

verus! {

/// One checklist item of the plan.
#[derive(Clone, Debug)]
pub struct TodoItem {
    pub label: String,
}

/// One row of the task matrix.
#[derive(Clone, Debug)]
pub struct TaskMatrixEntry {
    pub module: String,
    pub task: String,
    pub status: String,
}

/// One row of the validation table.
#[derive(Clone, Debug)]
pub struct ValidationEntry {
    pub kind: String,
    pub description: String,
    pub command: String,
}

#[derive(Clone, Copy, Debug, PartialEq, Eq, Structural)]
pub enum AcceptanceOverallStatus {
    Complete,
    InProgress,
}

/// Counts over a parsed plan.
#[derive(Clone, Debug)]
pub struct AcceptanceMetrics {
    pub modules_total: usize,
    pub modules_completed: usize,
    pub todos_completed: usize,
    pub todos_pending: usize,
    pub validation_steps: usize,
    pub overall_status: AcceptanceOverallStatus,
}

/// The sections of an acceptance plan that are read.
#[derive(Debug)]
pub struct ParsedAcceptancePlan {
    pub task_matrix: Vec<TaskMatrixEntry>,
    pub completed_todos: Vec<TodoItem>,
    pub pending_todos: Vec<TodoItem>,
    pub validation_plan: Vec<ValidationEntry>,
}

pub type Row = (Seq<char>, Seq<char>, Seq<char>);

pub open spec fn task_rows(s: Seq<TaskMatrixEntry>) -> Seq<Row> {
    s.map_values(|e: TaskMatrixEntry| (e.module@, e.task@, e.status@))
}

pub open spec fn validation_rows(s: Seq<ValidationEntry>) -> Seq<Row> {
    s.map_values(|e: ValidationEntry| (e.kind@, e.description@, e.command@))
}

pub open spec fn labels(s: Seq<TodoItem>) -> Seq<Seq<char>> {
    s.map_values(|e: TodoItem| e.label@)
}

/// The cells of a table row: the pieces between `|`, trimmed, without the
/// empty piece before the first and after the last bar; None unless the
/// line starts with `|` and has exactly `expected` cells.
pub open spec fn row_cells(line: Seq<char>, expected: nat) -> Option<Seq<Seq<char>>> {
    let cells = split_on(line, '|').map_values(|c: Seq<char>| trim(c));
    let c1 = if cells.len() > 0 && cells[0].len() == 0 {
        cells.drop_first()
    } else {
        cells
    };
    let c2 = if c1.len() > 0 && c1.last().len() == 0 {
        c1.drop_last()
    } else {
        c1
    };
    if !starts_with(line, "|"@) || cells.len() < expected + 2 || c2.len() != expected {
        None
    } else {
        Some(c2)
    }
}

/// The cells of a table row, if it has `expected` of them.
pub fn parse_markdown_row_cells(line: &Vec<char>, expected: usize) -> (r: Option<Vec<Vec<char>>>)
    requires
        expected < usize::MAX - 2,
    ensures
        r is None <==> row_cells(line@, expected as nat) is None,
        r matches Some(c) ==> row_cells(line@, expected as nat) == Some(char_views(c@)),
{
    proof {
        reveal_strlit("|");
    }
    if line.len() == 0 || line[0] != '|' {
        assert(line@.len() == 0 || line@.subrange(0, 1)[0] != "|"@[0]);
        return None;
    }
    assert(line@.subrange(0, 1) =~= "|"@);
    let pieces = split_chars(line, '|');
    let mut cells: Vec<Vec<char>> = Vec::new();
    let mut i: usize = 0;
    while i < pieces.len()
        invariant
            i <= pieces@.len(),
            char_views(cells@) == char_views(pieces@).map_values(|c: Seq<char>| trim(c)).take(
                i as int,
            ),
        decreases pieces@.len() - i,
    {
        let t = trimmed(&pieces[i]);
        let ghost before = cells@;
        let ghost tv = t@;
        cells.push(t);
        assert(char_views(pieces@)[i as int] == pieces@[i as int]@);
        assert(tv == char_views(pieces@).map_values(|c: Seq<char>| trim(c))[i as int]);
        assert(char_views(cells@) =~= char_views(before).push(tv));
        assert(char_views(cells@) =~= char_views(pieces@).map_values(|c: Seq<char>| trim(c)).take(
            i + 1,
        ));
        i += 1;
    }
    let ghost all = char_views(pieces@).map_values(|c: Seq<char>| trim(c));
    assert(char_views(cells@) =~= all);
    if cells.len() < expected + 2 {
        return None;
    }
    if cells[0].len() == 0 {
        cells.remove(0);
        assert(char_views(cells@) =~= all.drop_first());
    }
    let ghost c1 = char_views(cells@);
    if cells.len() > 0 && cells[cells.len() - 1].len() == 0 {
        cells.pop();
        assert(char_views(cells@) =~= c1.drop_last());
    }
    if cells.len() != expected {
        return None;
    }
    Some(cells)
}

fn to_string_vec(c: &Vec<char>) -> (r: String)
    ensures
        r@ == c@,
{
    string_of(c)
}

/// A validation table row.
pub fn parse_table_row(line: &Vec<char>) -> (r: Option<ValidationEntry>)
    ensures
        r is None <==> row_cells(line@, 3) is None,
        r matches Some(e) ==> row_cells(line@, 3) matches Some(c) && (e.kind@, e.description@, e.command@) == (c[0], c[1], c[2]),
{
    match parse_markdown_row_cells(line, 3) {
        Some(cells) => Some(
            ValidationEntry {
                kind: to_string_vec(&cells[0]),
                description: to_string_vec(&cells[1]),
                command: to_string_vec(&cells[2]),
            },
        ),
        None => None,
    }
}

/// A task matrix row.
pub fn parse_task_matrix_row(line: &Vec<char>) -> (r: Option<TaskMatrixEntry>)
    ensures
        r is None <==> row_cells(line@, 3) is None,
        r matches Some(e) ==> row_cells(line@, 3) matches Some(c) && (e.module@, e.task@, e.status@) == (c[0], c[1], c[2]),
{
    match parse_markdown_row_cells(line, 3) {
        Some(cells) => Some(
            TaskMatrixEntry {
                module: to_string_vec(&cells[0]),
                task: to_string_vec(&cells[1]),
                status: to_string_vec(&cells[2]),
            },
        ),
        None => None,
    }
}

/// `s` without its leading dashes.
pub open spec fn skip_dashes(s: Seq<char>) -> Seq<char>
    decreases s.len(),
{
    if s.len() > 0 && s[0] == '-' {
        skip_dashes(s.drop_first())
    } else {
        s
    }
}

/// The label of a bullet line: after the dashes and a `[x] ` or `[ ] `
/// checkbox; None for a line that is no bullet or has no label.
pub open spec fn bullet_of(line: Seq<char>) -> Option<Seq<char>> {
    let c = trim_start(skip_dashes(line));
    let label = if starts_with(c, "[x] "@) || starts_with(c, "[ ] "@) {
        c.subrange(4, c.len() as int)
    } else {
        c
    };
    if !starts_with(line, "-"@) || label.len() == 0 {
        None
    } else {
        Some(label)
    }
}

proof fn lemma_skip_dashes(s: Seq<char>, i: int)
    requires
        0 <= i <= s.len(),
        forall|j: int| 0 <= j < i ==> s[j] == '-',
    ensures
        skip_dashes(s) == skip_dashes(s.subrange(i, s.len() as int)),
    decreases i,
{
    if i > 0 {
        lemma_skip_dashes(s.drop_first(), i - 1);
        assert(s.drop_first().subrange(i - 1, s.drop_first().len() as int) =~= s.subrange(
            i,
            s.len() as int,
        ));
    } else {
        assert(s.subrange(0, s.len() as int) =~= s);
    }
}

/// The label of a bullet line.
pub fn parse_bullet(line: &Vec<char>) -> (r: Option<Vec<char>>)
    ensures
        r is None <==> bullet_of(line@) is None,
        r matches Some(b) ==> bullet_of(line@) == Some(b@),
{
    proof {
        reveal_strlit("-");
        reveal_strlit("[x] ");
        reveal_strlit("[ ] ");
    }
    if line.len() == 0 || line[0] != '-' {
        assert(line@.len() == 0 || line@.subrange(0, 1)[0] != "-"@[0]);
        return None;
    }
    assert(line@.subrange(0, 1) =~= "-"@);
    let mut a: usize = 0;
    while a < line.len() && line[a] == '-'
        invariant
            a <= line@.len(),
            forall|j: int| 0 <= j < a ==> line@[j] == '-',
        decreases line@.len() - a,
    {
        a += 1;
    }
    proof {
        lemma_skip_dashes(line@, a as int);
        let sub = line@.subrange(a as int, line@.len() as int);
        assert(sub.len() == 0 || sub[0] != '-');
        assert(skip_dashes(sub) == sub);
    }
    let rest = slice(line, a, line.len());
    let c = trimmed_start(&rest);
    let checked = chars_of("[x] ");
    let unchecked = chars_of("[ ] ");
    let label = if has_prefix(&c, &checked) || has_prefix(&c, &unchecked) {
        slice(&c, 4, c.len())
    } else {
        c
    };
    if label.len() == 0 {
        None
    } else {
        Some(label)
    }
}

/// Whether a task status counts as done: not blank, and it has a check
/// mark, or consists of check marks and space, or reads "done" or
/// "complete" in any ASCII case, or has the word 完成.
pub open spec fn completes(status: Seq<char>) -> bool {
    let n = trim(status);
    &&& n.len() > 0
    &&& {
        ||| contains(n, "✅"@)
        ||| (forall|i: int| 0 <= i < n.len() ==> is_space(#[trigger] n[i]) || n[i] == '✅')
        ||| eq_ignore_ascii_case(n, "done"@)
        ||| eq_ignore_ascii_case(n, "complete"@)
        ||| contains(n, "完成"@)
    }
}

/// Whether a task status counts as done.
pub fn status_indicates_completion(status: &str) -> (r: bool)
    ensures
        r == completes(status@),
{
    let s = chars_of(status);
    let n = trimmed(&s);
    if n.len() == 0 {
        return false;
    }
    let mark = chars_of("✅");
    if includes(&n, &mark) {
        return true;
    }
    let mut all_marks = true;
    let mut i: usize = 0;
    while i < n.len()
        invariant
            i <= n@.len(),
            all_marks == forall|j: int| 0 <= j < i ==> is_space(#[trigger] n@[j]) || n@[j] == '✅',
        decreases n@.len() - i,
    {
        if !(is_space_char(n[i]) || n[i] == '✅') {
            all_marks = false;
        }
        i += 1;
    }
    let word = chars_of("完成");
    all_marks || eq_ignore_ascii_case_chars(&n, "done") || eq_ignore_ascii_case_chars(&n, "complete")
        || includes(&n, &word)
}

/// Complete when nothing is pending and every task (if any) is done.
pub open spec fn overall_status(tasks: Seq<TaskMatrixEntry>, pending: Seq<TodoItem>) -> AcceptanceOverallStatus {
    if pending.len() == 0 && forall|i: int| 0 <= i < tasks.len() ==> completes(#[trigger] tasks[i].status@) {
        AcceptanceOverallStatus::Complete
    } else {
        AcceptanceOverallStatus::InProgress
    }
}

/// The plan's overall status.
pub fn determine_overall_status(task_matrix: &Vec<TaskMatrixEntry>, pending_todos: &Vec<TodoItem>) -> (r:
    AcceptanceOverallStatus)
    ensures
        r == overall_status(task_matrix@, pending_todos@),
{
    let mut all_done = true;
    let mut i: usize = 0;
    while i < task_matrix.len()
        invariant
            i <= task_matrix@.len(),
            all_done == forall|j: int| 0 <= j < i ==> completes(#[trigger] task_matrix@[j].status@),
        decreases task_matrix@.len() - i,
    {
        if !status_indicates_completion(task_matrix[i].status.as_str()) {
            all_done = false;
        }
        i += 1;
    }
    if pending_todos.len() == 0 && all_done {
        AcceptanceOverallStatus::Complete
    } else {
        AcceptanceOverallStatus::InProgress
    }
}

/// The part of the plan a line belongs to.
#[derive(Clone, Copy, Debug, PartialEq, Eq, Structural)]
pub enum Section {
    Outside,
    TaskMatrix { header_rows_consumed: usize },
    Completed,
    Pending,
    ValidationTable { header_rows_consumed: usize },
}

/// The parser's state: the section, then the rows and items read so far.
pub type PlanState = (Section, Seq<Row>, Seq<Seq<char>>, Seq<Seq<char>>, Seq<Row>);

pub open spec fn row_of(c: Seq<Seq<char>>) -> Row {
    (c[0], c[1], c[2])
}

/// How one line changes the state. Headings `## 2.`, `### 4.1`, `### 4.2`
/// and `## 5.` open the task matrix, the completed list, the pending list and
/// the validation table; any other `## ` or `### ` heading closes them. In a
/// table the first two `|` lines are its header, later ones are rows, and a
/// line that is neither blank nor a table line ends the table; in a list
/// each bullet is an item.
pub open spec fn plan_step(st: PlanState, line: Seq<char>) -> PlanState {
    let t = trim(line);
    let (sec, tasks, done, pending, checks) = st;
    if starts_with(t, "## 2."@) {
        (Section::TaskMatrix { header_rows_consumed: 0 }, tasks, done, pending, checks)
    } else if starts_with(t, "### 4.1"@) {
        (Section::Completed, tasks, done, pending, checks)
    } else if starts_with(t, "### 4.2"@) {
        (Section::Pending, tasks, done, pending, checks)
    } else if starts_with(t, "## 5."@) {
        (Section::ValidationTable { header_rows_consumed: 0 }, tasks, done, pending, checks)
    } else if starts_with(t, "## "@) || starts_with(t, "### "@) {
        (Section::Outside, tasks, done, pending, checks)
    } else {
        match sec {
            Section::TaskMatrix { header_rows_consumed: h } => if starts_with(t, "|"@) {
                if h < 2 {
                    (
                        Section::TaskMatrix { header_rows_consumed: (h + 1) as usize },
                        tasks,
                        done,
                        pending,
                        checks,
                    )
                } else {
                    match row_cells(t, 3) {
                        Some(c) => (sec, tasks.push(row_of(c)), done, pending, checks),
                        None => st,
                    }
                }
            } else if t.len() > 0 {
                (Section::Outside, tasks, done, pending, checks)
            } else {
                st
            },
            Section::Completed => match bullet_of(t) {
                Some(b) => (sec, tasks, done.push(b), pending, checks),
                None => st,
            },
            Section::Pending => match bullet_of(t) {
                Some(b) => (sec, tasks, done, pending.push(b), checks),
                None => st,
            },
            Section::ValidationTable { header_rows_consumed: h } => if starts_with(t, "|"@) {
                if h < 2 {
                    (
                        Section::ValidationTable { header_rows_consumed: (h + 1) as usize },
                        tasks,
                        done,
                        pending,
                        checks,
                    )
                } else {
                    match row_cells(t, 3) {
                        Some(c) => (sec, tasks, done, pending, checks.push(row_of(c))),
                        None => st,
                    }
                }
            } else if t.len() > 0 {
                (Section::Outside, tasks, done, pending, checks)
            } else {
                st
            },
            Section::Outside => st,
        }
    }
}

/// The state after reading `ls` in order from the start of the document.
pub open spec fn plan_of(ls: Seq<Seq<char>>) -> PlanState
    decreases ls.len(),
{
    if ls.len() == 0 {
        (Section::Outside, Seq::empty(), Seq::empty(), Seq::empty(), Seq::empty())
    } else {
        plan_step(plan_of(ls.drop_last()), ls.last())
    }
}

fn starts(t: &Vec<char>, lit: &str) -> (r: bool)
    ensures
        r == starts_with(t@, lit@),
{
    let p = chars_of(lit);
    has_prefix(t, &p)
}

/// Reads the task matrix, the completed and pending lists and the
/// validation table out of an acceptance plan written in Markdown.
pub fn parse_acceptance_plan(markdown: &str) -> (r: ParsedAcceptancePlan)
    ensures
        ({
            let (_, tasks, done, pending, checks) = plan_of(lines(markdown@));
            &&& task_rows(r.task_matrix@) == tasks
            &&& labels(r.completed_todos@) == done
            &&& labels(r.pending_todos@) == pending
            &&& validation_rows(r.validation_plan@) == checks
        }),
{
    let text = chars_of(markdown);
    let ls = split_lines(&text);
    let ghost all = char_views(ls@);
    let mut section = Section::Outside;
    let mut task_matrix: Vec<TaskMatrixEntry> = Vec::new();
    let mut completed: Vec<TodoItem> = Vec::new();
    let mut pending: Vec<TodoItem> = Vec::new();
    let mut validation: Vec<ValidationEntry> = Vec::new();
    let mut i: usize = 0;
    assert(all.take(0) =~= Seq::<Seq<char>>::empty());
    while i < ls.len()
        invariant
            i <= ls@.len(),
            all == char_views(ls@),
            all == lines(markdown@),
            plan_of(all.take(i as int)) == (
                section,
                task_rows(task_matrix@),
                labels(completed@),
                labels(pending@),
                validation_rows(validation@),
            ),
        decreases ls@.len() - i,
    {
        let ghost st = plan_of(all.take(i as int));
        assert(all.take(i + 1).drop_last() =~= all.take(i as int));
        assert(all.take(i + 1).last() == ls@[i as int]@);
        let t = trimmed(&ls[i]);
        if starts(&t, "## 2.") {
            section = Section::TaskMatrix { header_rows_consumed: 0 };
        } else if starts(&t, "### 4.1") {
            section = Section::Completed;
        } else if starts(&t, "### 4.2") {
            section = Section::Pending;
        } else if starts(&t, "## 5.") {
            section = Section::ValidationTable { header_rows_consumed: 0 };
        } else if starts(&t, "## ") || starts(&t, "### ") {
            section = Section::Outside;
        } else {
            match section {
                Section::TaskMatrix { header_rows_consumed } => {
                    if starts(&t, "|") {
                        if header_rows_consumed < 2 {
                            section = Section::TaskMatrix {
                                header_rows_consumed: header_rows_consumed + 1,
                            };
                        } else {
                            match parse_task_matrix_row(&t) {
                                Some(entry) => {
                                    let ghost before = task_matrix@;
                                    let ghost ev = (entry.module@, entry.task@, entry.status@);
                                    task_matrix.push(entry);
                                    assert(task_rows(task_matrix@) =~= task_rows(before).push(ev));
                                },
                                None => {},
                            }
                        }
                    } else if t.len() > 0 {
                        section = Section::Outside;
                    }
                },
                Section::Completed => {
                    match parse_bullet(&t) {
                        Some(b) => {
                            let ghost before = completed@;
                            let label = string_of(&b);
                            completed.push(TodoItem { label });
                            assert(labels(completed@) =~= labels(before).push(b@));
                        },
                        None => {},
                    }
                },
                Section::Pending => {
                    match parse_bullet(&t) {
                        Some(b) => {
                            let ghost before = pending@;
                            let label = string_of(&b);
                            pending.push(TodoItem { label });
                            assert(labels(pending@) =~= labels(before).push(b@));
                        },
                        None => {},
                    }
                },
                Section::ValidationTable { header_rows_consumed } => {
                    if starts(&t, "|") {
                        if header_rows_consumed < 2 {
                            section = Section::ValidationTable {
                                header_rows_consumed: header_rows_consumed + 1,
                            };
                        } else {
                            match parse_table_row(&t) {
                                Some(entry) => {
                                    let ghost before = validation@;
                                    let ghost ev = (entry.kind@, entry.description@, entry.command@);
                                    validation.push(entry);
                                    assert(validation_rows(validation@) =~= validation_rows(
                                        before,
                                    ).push(ev));
                                },
                                None => {},
                            }
                        }
                    } else if t.len() > 0 {
                        section = Section::Outside;
                    }
                },
                Section::Outside => {},
            }
        }
        i += 1;
    }
    assert(all.take(ls@.len() as int) =~= all);
    ParsedAcceptancePlan {
        task_matrix,
        completed_todos: completed,
        pending_todos: pending,
        validation_plan: validation,
    }
}

/// How many tasks are done.
pub open spec fn done_count(tasks: Seq<TaskMatrixEntry>) -> nat
    decreases tasks.len(),
{
    if tasks.len() == 0 {
        0
    } else {
        done_count(tasks.drop_last()) + if completes(tasks.last().status@) {
            1nat
        } else {
            0nat
        }
    }
}

/// The counts and overall status of a parsed plan.
pub fn plan_metrics(plan: &ParsedAcceptancePlan) -> (r: AcceptanceMetrics)
    ensures
        r.modules_total == plan.task_matrix@.len(),
        r.modules_completed == done_count(plan.task_matrix@),
        r.todos_completed == plan.completed_todos@.len(),
        r.todos_pending == plan.pending_todos@.len(),
        r.validation_steps == plan.validation_plan@.len(),
        r.overall_status == overall_status(plan.task_matrix@, plan.pending_todos@),
{
    let mut done: usize = 0;
    let mut i: usize = 0;
    while i < plan.task_matrix.len()
        invariant
            i <= plan.task_matrix@.len(),
            done as nat == done_count(plan.task_matrix@.take(i as int)),
            done <= i,
        decreases plan.task_matrix@.len() - i,
    {
        assert(plan.task_matrix@.take(i + 1).drop_last() =~= plan.task_matrix@.take(i as int));
        if status_indicates_completion(plan.task_matrix[i].status.as_str()) {
            done += 1;
        }
        i += 1;
    }
    assert(plan.task_matrix@.take(plan.task_matrix@.len() as int) =~= plan.task_matrix@);
    AcceptanceMetrics {
        modules_total: plan.task_matrix.len(),
        modules_completed: done,
        todos_completed: plan.completed_todos.len(),
        todos_pending: plan.pending_todos.len(),
        validation_steps: plan.validation_plan.len(),
        overall_status: determine_overall_status(&plan.task_matrix, &plan.pending_todos),
    }
}

} // verus!
