//! The drawing of a job: its tasks in columns, each behind what it depends on.
use crate::router::jobs::TaskDisplay;
use crate::text::{decimal_i64, same, shorten, shortened, signed_decimal};
use crate::time::whole;
use vstd::prelude::*;
use vstd::string::*;

verus! {

pub const NODE_WIDTH: i64 = 176;

pub const NODE_HEIGHT: i64 = 36;

pub const COLUMN_GAP: i64 = 72;

pub const ROW_GAP: i64 = 20;

/// The most characters of a name that fit a node.
pub const LABEL_MAX_CHARS: usize = 22;

/// A task as it is drawn, by its upper left corner and its middle.
#[derive(Clone, Debug)]
pub struct DagNode {
    pub label: String,
    pub x: i64,
    pub y: i64,
    pub center_x: i64,
    pub center_y: i64,
}

/// A dependency as it is drawn.
#[derive(Clone, Debug)]
pub struct DagEdge {
    pub path: String,
}

/// A job as it is drawn.
#[derive(Clone, Debug)]
pub struct Dag {
    pub nodes: Vec<DagNode>,
    pub edges: Vec<DagEdge>,
    pub node_width: i64,
    pub node_height: i64,
    pub width: i64,
    pub height: i64,
}

/// The first task with a name.
pub open spec fn place_of(tasks: Seq<TaskDisplay>, name: Seq<char>) -> Option<int>
    decreases tasks.len(),
{
    if tasks.len() == 0 {
        None
    } else {
        match place_of(tasks.drop_last(), name) {
            Some(place) => Some(place),
            None => if tasks.last().task_id@ == name {
                Some(tasks.len() - 1)
            } else {
                None
            },
        }
    }
}

/// The last task with a name.
pub open spec fn last_place_of(tasks: Seq<TaskDisplay>, name: Seq<char>) -> Option<int>
    decreases tasks.len(),
{
    if tasks.len() == 0 {
        None
    } else if tasks.last().task_id@ == name {
        Some(tasks.len() - 1)
    } else {
        last_place_of(tasks.drop_last(), name)
    }
}

/// The largest column of some names, as far as they are tasks.
pub open spec fn deepest(tasks: Seq<TaskDisplay>, columns: Seq<nat>, names: Seq<String>) -> Option<
    nat,
>
    decreases names.len(),
{
    if names.len() == 0 {
        None
    } else {
        let before = deepest(tasks, columns, names.drop_last());
        match place_of(tasks, names.last()@) {
            None => before,
            Some(place) => match before {
                Some(column) => if column >= columns[place] {
                    before
                } else {
                    Some(columns[place])
                },
                None => Some(columns[place]),
            },
        }
    }
}

/// The place at which the column of a task is kept: that of the first task with its name.
pub open spec fn home_of(tasks: Seq<TaskDisplay>, i: int) -> int {
    match place_of(tasks, tasks[i].task_id@) {
        Some(place) => place,
        None => i,
    }
}

/// The columns with one task moved one past its deepest dependency, if it is not there yet.
pub open spec fn relaxed(tasks: Seq<TaskDisplay>, columns: Seq<nat>, i: int) -> Seq<nat> {
    match deepest(tasks, columns, tasks[i].depends_on@) {
        Some(column) => if columns[home_of(tasks, i)] < column + 1 {
            columns.update(home_of(tasks, i), column + 1)
        } else {
            columns
        },
        None => columns,
    }
}

/// The columns with the first so many tasks moved, one after the other.
pub open spec fn relaxed_by(tasks: Seq<TaskDisplay>, columns: Seq<nat>, n: nat) -> Seq<nat>
    decreases n,
{
    if n == 0 {
        columns
    } else {
        relaxed(tasks, relaxed_by(tasks, columns, (n - 1) as nat), n - 1)
    }
}

/// The columns after so many passes over all tasks, from all in the first.
pub open spec fn after_passes(tasks: Seq<TaskDisplay>, passes: nat) -> Seq<nat>
    decreases passes,
{
    if passes == 0 {
        Seq::new(tasks.len(), |i: int| 0nat)
    } else {
        relaxed_by(tasks, after_passes(tasks, (passes - 1) as nat), tasks.len())
    }
}

/// The columns of all tasks. So many passes are enough wherever no task depends on itself,
/// and where one does they are the end of it.
pub open spec fn final_columns(tasks: Seq<TaskDisplay>) -> Seq<nat> {
    after_passes(tasks, tasks.len())
}

/// The columns of all tasks, by their own places.
pub open spec fn task_columns(tasks: Seq<TaskDisplay>) -> Seq<nat> {
    Seq::new(tasks.len(), |i: int| final_columns(tasks)[home_of(tasks, i)])
}

proof fn lemma_place(tasks: Seq<TaskDisplay>, name: Seq<char>)
    ensures
        match place_of(tasks, name) {
            Some(place) => {
                &&& 0 <= place < tasks.len()
                &&& tasks[place].task_id@ == name
                &&& forall|i: int| 0 <= i < place ==> (#[trigger] tasks[i]).task_id@ != name
            },
            None => forall|i: int| 0 <= i < tasks.len() ==> (#[trigger] tasks[i]).task_id@ != name,
        },
    decreases tasks.len(),
{
    if tasks.len() > 0 {
        let shorter = tasks.drop_last();
        lemma_place(shorter, name);
        match place_of(shorter, name) {
            Some(place) => {
                assert(tasks[place] == shorter[place]);
                assert forall|i: int| 0 <= i < place implies (#[trigger] tasks[i]).task_id@
                    != name by {
                    assert(shorter[i].task_id@ != name);
                }
            },
            None => {
                assert forall|i: int| 0 <= i < shorter.len() implies (
                #[trigger] tasks[i]).task_id@ != name by {
                    assert(shorter[i].task_id@ != name);
                }
            },
        }
    }
}

proof fn lemma_last_place(tasks: Seq<TaskDisplay>, name: Seq<char>)
    ensures
        match last_place_of(tasks, name) {
            Some(place) => {
                &&& 0 <= place < tasks.len()
                &&& tasks[place].task_id@ == name
                &&& forall|i: int|
                    place < i < tasks.len() ==> (#[trigger] tasks[i]).task_id@ != name
            },
            None => forall|i: int| 0 <= i < tasks.len() ==> (#[trigger] tasks[i]).task_id@ != name,
        },
    decreases tasks.len(),
{
    if tasks.len() > 0 && tasks.last().task_id@ != name {
        let shorter = tasks.drop_last();
        lemma_last_place(shorter, name);
        match last_place_of(shorter, name) {
            Some(place) => {
                assert(tasks[place] == shorter[place]);
                assert forall|i: int| place < i < tasks.len() implies (
                #[trigger] tasks[i]).task_id@ != name by {
                    if i < shorter.len() {
                        assert(shorter[i].task_id@ != name);
                    }
                }
            },
            None => {
                assert forall|i: int| 0 <= i < tasks.len() implies (
                #[trigger] tasks[i]).task_id@ != name by {
                    if i < shorter.len() {
                        assert(shorter[i].task_id@ != name);
                    }
                }
            },
        }
    }
}

proof fn lemma_home(tasks: Seq<TaskDisplay>, i: int)
    requires
        0 <= i < tasks.len(),
    ensures
        place_of(tasks, tasks[i].task_id@) is Some,
        0 <= home_of(tasks, i) <= i,
{
    lemma_place(tasks, tasks[i].task_id@);
}

fn find_place(tasks: &Vec<TaskDisplay>, name: &str) -> (r: Option<usize>)
    ensures
        match r {
            Some(place) => place_of(tasks@, name@) == Some(place as int) && place < tasks@.len(),
            None => place_of(tasks@, name@) is None,
        },
{
    proof {
        lemma_place(tasks@, name@);
    }
    let mut i: usize = 0;
    while i < tasks.len()
        invariant
            i <= tasks@.len(),
            forall|j: int| 0 <= j < i ==> (#[trigger] tasks@[j]).task_id@ != name@,
            match place_of(tasks@, name@) {
                Some(place) => {
                    &&& 0 <= place < tasks@.len()
                    &&& tasks@[place].task_id@ == name@
                    &&& forall|i: int| 0 <= i < place ==> (#[trigger] tasks@[i]).task_id@ != name@
                },
                None => forall|i: int|
                    0 <= i < tasks@.len() ==> (#[trigger] tasks@[i]).task_id@ != name@,
            },
        decreases tasks.len() - i,
    {
        if same(tasks[i].task_id.as_str(), name) {
            return Some(i);
        }
        i = i + 1;
    }
    None
}

fn find_last_place(tasks: &Vec<TaskDisplay>, name: &str) -> (r: Option<usize>)
    ensures
        match r {
            Some(place) => last_place_of(tasks@, name@) == Some(place as int) && place
                < tasks@.len(),
            None => last_place_of(tasks@, name@) is None,
        },
{
    let mut i: usize = tasks.len();
    assert(tasks@.take(i as int) =~= tasks@);
    while i > 0
        invariant
            i <= tasks@.len(),
            last_place_of(tasks@, name@) == last_place_of(tasks@.take(i as int), name@),
        decreases i,
    {
        assert(tasks@.take(i as int).drop_last() =~= tasks@.take(i - 1));
        if same(tasks[i - 1].task_id.as_str(), name) {
            return Some(i - 1);
        }
        i = i - 1;
    }
    None
}

/// Whether numbers are columns.
pub open spec fn are_columns(numbers: Seq<u64>, columns: Seq<nat>) -> bool {
    &&& numbers.len() == columns.len()
    &&& forall|i: int| 0 <= i < numbers.len() ==> #[trigger] numbers[i] == columns[i]
}

fn find_deepest(
    tasks: &Vec<TaskDisplay>,
    numbers: &Vec<u64>,
    names: &Vec<String>,
    Ghost(columns): Ghost<Seq<nat>>,
) -> (r: Option<u64>)
    requires
        are_columns(numbers@, columns),
        columns.len() == tasks@.len(),
    ensures
        match r {
            Some(column) => deepest(tasks@, columns, names@) == Some(column as nat)
                && numbers@.contains(column),
            None => deepest(tasks@, columns, names@) is None,
        },
{
    let mut most: Option<u64> = None;
    let mut i: usize = 0;
    assert(names@.take(0) =~= Seq::empty());
    while i < names.len()
        invariant
            i <= names@.len(),
            are_columns(numbers@, columns),
            columns.len() == tasks@.len(),
            match most {
                Some(column) => deepest(tasks@, columns, names@.take(i as int)) == Some(
                    column as nat,
                ) && numbers@.contains(column),
                None => deepest(tasks@, columns, names@.take(i as int)) is None,
            },
        decreases names.len() - i,
    {
        match find_place(tasks, names[i].as_str()) {
            Some(place) => {
                let column: u64 = numbers[place];
                assert(numbers@[place as int] == column);
                most = match most {
                    Some(before) => if before >= column {
                        Some(before)
                    } else {
                        Some(column)
                    },
                    None => Some(column),
                };
            },
            None => {},
        }
        i = i + 1;
        assert(names@.take(i as int).drop_last() =~= names@.take(i - 1));
    }
    assert(names@.take(i as int) =~= names@);
    most
}

proof fn lemma_lengths(tasks: Seq<TaskDisplay>, columns: Seq<nat>, n: nat)
    requires
        columns.len() == tasks.len(),
        n <= tasks.len(),
    ensures
        relaxed_by(tasks, columns, n).len() == tasks.len(),
    decreases n,
{
    if n > 0 {
        lemma_lengths(tasks, columns, (n - 1) as nat);
        lemma_home(tasks, n - 1);
    }
}

proof fn lemma_pass_lengths(tasks: Seq<TaskDisplay>, passes: nat)
    ensures
        after_passes(tasks, passes).len() == tasks.len(),
    decreases passes,
{
    if passes > 0 {
        lemma_pass_lengths(tasks, (passes - 1) as nat);
        lemma_lengths(tasks, after_passes(tasks, (passes - 1) as nat), tasks.len());
    }
}

proof fn lemma_unchanged_from_then_on(tasks: Seq<TaskDisplay>, passes: nat, more: nat)
    requires
        after_passes(tasks, passes + 1) == after_passes(tasks, passes),
    ensures
        after_passes(tasks, passes + more) == after_passes(tasks, passes),
    decreases more,
{
    if more > 0 {
        lemma_unchanged_from_then_on(tasks, passes, (more - 1) as nat);
    }
}

/// Puts each task one column past its deepest dependency, by going over all of them again and
/// again until nothing moves. It goes over them no more often than there are tasks, so that
/// tasks that depend on each other in a circle do not keep it going.
pub fn columns_by_task(tasks: &Vec<TaskDisplay>) -> (numbers: Vec<u64>)
    requires
        tasks@.len() <= u32::MAX,
    ensures
        are_columns(numbers@, final_columns(tasks@)),
{
    let n: usize = tasks.len();
    let mut numbers: Vec<u64> = Vec::new();
    let mut filled: usize = 0;
    while filled < n
        invariant
            filled <= n,
            numbers@.len() == filled,
            forall|i: int| 0 <= i < filled ==> #[trigger] numbers@[i] == 0,
        decreases n - filled,
    {
        numbers.push(0);
        filled = filled + 1;
    }
    assert(are_columns(numbers@, after_passes(tasks@, 0)));
    let mut passes: u64 = 0;
    while passes < n as u64
        invariant
            n == tasks@.len(),
            n <= u32::MAX,
            passes <= n,
            are_columns(numbers@, after_passes(tasks@, passes as nat)),
            forall|i: int| 0 <= i < numbers@.len() ==> #[trigger] numbers@[i] <= passes * n,
        decreases n - passes,
    {
        let ghost start = after_passes(tasks@, passes as nat);
        proof {
            lemma_pass_lengths(tasks@, passes as nat);
        }
        let mut changed: bool = false;
        let mut i: usize = 0;
        while i < n
            invariant
                n == tasks@.len(),
                n <= u32::MAX,
                passes < n,
                i <= n,
                start.len() == n,
                are_columns(numbers@, relaxed_by(tasks@, start, i as nat)),
                forall|k: int| 0 <= k < numbers@.len() ==> #[trigger] numbers@[k] <= passes * n + i,
                !changed ==> relaxed_by(tasks@, start, i as nat) == start,
            decreases n - i,
        {
            let ghost columns = relaxed_by(tasks@, start, i as nat);
            proof {
                lemma_lengths(tasks@, start, i as nat);
                lemma_home(tasks@, i as int);
                assert(passes * n + i < u64::MAX) by (nonlinear_arith)
                    requires
                        passes < n,
                        i <= n,
                        n <= u32::MAX,
                ;
            }
            match find_deepest(tasks, &numbers, &tasks[i].depends_on, Ghost(columns)) {
                Some(column) => {
                    let home: usize = match find_place(tasks, tasks[i].task_id.as_str()) {
                        Some(home) => home,
                        None => i,
                    };
                    if numbers[home] < column + 1 {
                        numbers.set(home, column + 1);
                        changed = true;
                    }
                },
                None => {},
            }
            i = i + 1;
            assert(are_columns(numbers@, relaxed_by(tasks@, start, i as nat)));
        }
        proof {
            assert((passes + 1) * n == passes * n + n) by (nonlinear_arith);
            assert(after_passes(tasks@, (passes + 1) as nat) == relaxed_by(
                tasks@,
                start,
                tasks@.len(),
            ));
        }
        if !changed {
            proof {
                lemma_unchanged_from_then_on(tasks@, passes as nat, (n - passes) as nat);
            }
            return numbers;
        }
        passes = passes + 1;
    }
    numbers
}

/// How many of some columns are one.
pub open spec fn count_in(columns: Seq<nat>, column: nat) -> nat
    decreases columns.len(),
{
    if columns.len() == 0 {
        0
    } else {
        count_in(columns.drop_last(), column) + (if columns.last() == column {
            1nat
        } else {
            0
        })
    }
}

/// How many different columns stand before one.
pub open spec fn columns_before(columns: Seq<nat>, column: nat) -> nat
    decreases columns.len(),
{
    if columns.len() == 0 {
        0
    } else {
        columns_before(columns.drop_last(), column) + (if columns.last() < column
            && !columns.drop_last().contains(columns.last()) {
            1nat
        } else {
            0
        })
    }
}

/// How many different columns there are.
pub open spec fn different(columns: Seq<nat>) -> nat
    decreases columns.len(),
{
    if columns.len() == 0 {
        0
    } else {
        different(columns.drop_last()) + (if !columns.drop_last().contains(columns.last()) {
            1nat
        } else {
            0
        })
    }
}

/// How many tasks the fullest of the columns of the first so many tasks holds.
pub open spec fn tallest(columns: Seq<nat>, n: nat) -> nat
    decreases n,
{
    if n == 0 {
        0
    } else {
        let before = tallest(columns, (n - 1) as nat);
        let count = count_in(columns, columns[n - 1]);
        if count > before {
            count
        } else {
            before
        }
    }
}

/// How high so many nodes are, one below the other.
pub open spec fn stack_height(nodes: nat) -> int {
    nodes * (NODE_HEIGHT + ROW_GAP) - ROW_GAP
}

/// How wide so many columns are, one beside the other.
pub open spec fn row_width(columns: nat) -> int {
    columns * (NODE_WIDTH + COLUMN_GAP) - COLUMN_GAP
}

/// Where the left side of a task is drawn: behind the columns before its own.
pub open spec fn x_of(tasks: Seq<TaskDisplay>, place: int) -> int {
    let columns = task_columns(tasks);
    columns_before(columns, columns[place]) * (NODE_WIDTH + COLUMN_GAP)
}

/// Where the upper side of a task is drawn: below those before it in its column, which stands
/// in the middle.
pub open spec fn y_of(tasks: Seq<TaskDisplay>, place: int) -> int {
    let columns = task_columns(tasks);
    let top = (stack_height(tallest(columns, columns.len())) - stack_height(
        count_in(columns, columns[place]),
    )) / 2;
    top + count_in(columns.take(place), columns[place]) * (NODE_HEIGHT + ROW_GAP)
}

/// The place by which a task is drawn: that of the last task with its name.
pub open spec fn drawn_at(tasks: Seq<TaskDisplay>, i: int) -> int {
    match last_place_of(tasks, tasks[i].task_id@) {
        Some(place) => place,
        None => i,
    }
}

/// Whether a node draws a task.
pub open spec fn draws(node: DagNode, tasks: Seq<TaskDisplay>, i: int) -> bool {
    &&& node.label@ == shortened(tasks[i].task_id@, LABEL_MAX_CHARS as nat)
    &&& node.x == x_of(tasks, drawn_at(tasks, i))
    &&& node.y == y_of(tasks, drawn_at(tasks, i))
    &&& node.center_x == node.x + NODE_WIDTH / 2
    &&& node.center_y == node.y + NODE_HEIGHT / 2
}

/// The curve from the right side of one node to the left side of another.
pub open spec fn curve(from_x: int, from_y: int, to_x: int, to_y: int) -> Seq<char> {
    let start_x = from_x + NODE_WIDTH;
    let start_y = from_y + NODE_HEIGHT / 2;
    let end_y = to_y + NODE_HEIGHT / 2;
    let bend = whole(to_x - start_x, 2);
    "M "@ + signed_decimal(start_x) + " "@ + signed_decimal(start_y) + " C "@ + signed_decimal(
        start_x + bend,
    ) + " "@ + signed_decimal(start_y) + " "@ + signed_decimal(to_x - bend) + " "@
        + signed_decimal(end_y) + " "@ + signed_decimal(to_x) + " "@ + signed_decimal(end_y)
}

/// The curves from the first so many dependencies of a task, as far as they are tasks.
pub open spec fn curves_to(tasks: Seq<TaskDisplay>, i: int, n: nat) -> Seq<Seq<char>>
    decreases n,
{
    if n == 0 {
        Seq::empty()
    } else {
        let before = curves_to(tasks, i, (n - 1) as nat);
        match last_place_of(tasks, tasks[i].depends_on@[n - 1]@) {
            Some(from) => before.push(
                curve(
                    x_of(tasks, from),
                    y_of(tasks, from),
                    x_of(tasks, drawn_at(tasks, i)),
                    y_of(tasks, drawn_at(tasks, i)),
                ),
            ),
            None => before,
        }
    }
}

/// The curves to the first so many tasks.
pub open spec fn all_curves(tasks: Seq<TaskDisplay>, n: nat) -> Seq<Seq<char>>
    decreases n,
{
    if n == 0 {
        Seq::empty()
    } else {
        all_curves(tasks, (n - 1) as nat) + curves_to(
            tasks,
            n - 1,
            tasks[n - 1].depends_on@.len(),
        )
    }
}

/// What edges draw.
pub open spec fn paths(edges: Seq<DagEdge>) -> Seq<Seq<char>> {
    edges.map_values(|edge: DagEdge| edge.path@)
}

fn count_columns(numbers: &Vec<u64>, n: usize, column: u64, Ghost(columns): Ghost<Seq<nat>>) -> (r:
    usize)
    requires
        are_columns(numbers@, columns),
        n <= numbers@.len(),
    ensures
        r == count_in(columns.take(n as int), column as nat),
        r <= n,
{
    let mut count: usize = 0;
    let mut i: usize = 0;
    assert(columns.take(0) =~= Seq::empty());
    while i < n
        invariant
            i <= n <= numbers@.len(),
            are_columns(numbers@, columns),
            count == count_in(columns.take(i as int), column as nat),
            count <= i,
        decreases n - i,
    {
        if numbers[i] == column {
            count = count + 1;
        }
        i = i + 1;
        assert(columns.take(i as int).drop_last() =~= columns.take(i - 1));
    }
    count
}

fn is_new_column(numbers: &Vec<u64>, n: usize, Ghost(columns): Ghost<Seq<nat>>) -> (b: bool)
    requires
        are_columns(numbers@, columns),
        n < numbers@.len(),
    ensures
        b == !columns.take(n as int).contains(columns[n as int]),
{
    let mut i: usize = 0;
    while i < n
        invariant
            i <= n < numbers@.len(),
            are_columns(numbers@, columns),
            forall|j: int| 0 <= j < i ==> #[trigger] columns[j] != columns[n as int],
        decreases n - i,
    {
        if numbers[i] == numbers[n] {
            assert(columns.take(n as int)[i as int] == columns[n as int]);
            return false;
        }
        i = i + 1;
    }
    true
}

/// Counts the different columns before one, or all of them.
fn count_before(numbers: &Vec<u64>, column: Option<u64>, Ghost(columns): Ghost<Seq<nat>>) -> (r:
    usize)
    requires
        are_columns(numbers@, columns),
    ensures
        match column {
            Some(column) => r == columns_before(columns, column as nat),
            None => r == different(columns),
        },
        r <= numbers@.len(),
{
    let mut count: usize = 0;
    let mut i: usize = 0;
    assert(columns.take(0) =~= Seq::empty());
    while i < numbers.len()
        invariant
            i <= numbers@.len(),
            are_columns(numbers@, columns),
            count <= i,
            match column {
                Some(column) => count == columns_before(columns.take(i as int), column as nat),
                None => count == different(columns.take(i as int)),
            },
        decreases numbers.len() - i,
    {
        let counts: bool = match column {
            Some(column) => numbers[i] < column,
            None => true,
        };
        assert(columns.take(i + 1).drop_last() =~= columns.take(i as int));
        assert(columns.take(i + 1).last() == columns[i as int]);
        if counts && is_new_column(numbers, i, Ghost(columns)) {
            count = count + 1;
        }
        i = i + 1;
    }
    assert(columns.take(i as int) =~= columns);
    count
}

fn find_tallest(numbers: &Vec<u64>, Ghost(columns): Ghost<Seq<nat>>) -> (r: usize)
    requires
        are_columns(numbers@, columns),
    ensures
        r == tallest(columns, columns.len()),
        r <= numbers@.len(),
{
    let n: usize = numbers.len();
    let mut most: usize = 0;
    let mut i: usize = 0;
    while i < n
        invariant
            i <= n,
            n == numbers@.len(),
            are_columns(numbers@, columns),
            most == tallest(columns, i as nat),
            most <= n,
        decreases n - i,
    {
        let count: usize = count_columns(numbers, n, numbers[i], Ghost(columns));
        assert(columns.take(n as int) =~= columns);
        if count > most {
            most = count;
        }
        i = i + 1;
    }
    most
}

proof fn lemma_no_column_is_taller(columns: Seq<nat>, n: nat, i: int)
    requires
        0 <= i < n <= columns.len(),
    ensures
        count_in(columns, columns[i]) <= tallest(columns, n),
    decreases n,
{
    if i < n - 1 {
        lemma_no_column_is_taller(columns, (n - 1) as nat, i);
    }
}

fn position(
    numbers: &Vec<u64>,
    tallest_column: usize,
    place: usize,
    Ghost(tasks): Ghost<Seq<TaskDisplay>>,
) -> (r: (i64, i64))
    requires
        are_columns(numbers@, task_columns(tasks)),
        tasks.len() <= u32::MAX,
        place < numbers@.len(),
        tallest_column == tallest(task_columns(tasks), task_columns(tasks).len()),
        tallest_column <= numbers@.len(),
    ensures
        r.0 == x_of(tasks, place as int),
        r.1 == y_of(tasks, place as int),
        0 <= r.0 <= u32::MAX * 248,
        0 <= r.1 <= u32::MAX * 112,
{
    let ghost columns = task_columns(tasks);
    let column: u64 = numbers[place];
    let before: usize = count_before(numbers, Some(column), Ghost(columns));
    let in_column: usize = count_columns(numbers, numbers.len(), column, Ghost(columns));
    let above: usize = count_columns(numbers, place, column, Ghost(columns));
    proof {
        assert(columns.take(columns.len() as int) =~= columns);
        assert(columns[place as int] == column as nat);
        lemma_no_column_is_taller(columns, columns.len(), place as int);
    }
    let content_height: i64 = tallest_column as i64 * (NODE_HEIGHT + ROW_GAP) - ROW_GAP;
    let column_height: i64 = in_column as i64 * (NODE_HEIGHT + ROW_GAP) - ROW_GAP;
    let top: i64 = (content_height - column_height) / 2;
    let x: i64 = before as i64 * (NODE_WIDTH + COLUMN_GAP);
    let y: i64 = top + above as i64 * (NODE_HEIGHT + ROW_GAP);
    (x, y)
}

fn write_curve(from: (i64, i64), to: (i64, i64)) -> (path: String)
    requires
        0 <= from.0 <= u32::MAX * 248,
        0 <= from.1 <= u32::MAX * 112,
        0 <= to.0 <= u32::MAX * 248,
        0 <= to.1 <= u32::MAX * 112,
    ensures
        path@ == curve(from.0 as int, from.1 as int, to.0 as int, to.1 as int),
{
    let start_x: i64 = from.0 + NODE_WIDTH;
    let start_y: i64 = from.1 + NODE_HEIGHT / 2;
    let end_y: i64 = to.1 + NODE_HEIGHT / 2;
    let distance: i64 = to.0 - start_x;
    let bend: i64 = if distance >= 0 {
        distance / 2
    } else {
        -((-distance) / 2)
    };
    let mut path = "M ".to_owned();
    path.append(decimal_i64(start_x).as_str());
    path.append(" ");
    path.append(decimal_i64(start_y).as_str());
    path.append(" C ");
    path.append(decimal_i64(start_x + bend).as_str());
    path.append(" ");
    path.append(decimal_i64(start_y).as_str());
    path.append(" ");
    path.append(decimal_i64(to.0 - bend).as_str());
    path.append(" ");
    path.append(decimal_i64(end_y).as_str());
    path.append(" ");
    path.append(decimal_i64(to.0).as_str());
    path.append(" ");
    path.append(decimal_i64(end_y).as_str());
    path
}

fn columns_of_tasks(tasks: &Vec<TaskDisplay>) -> (numbers: Vec<u64>)
    requires
        tasks@.len() <= u32::MAX,
    ensures
        are_columns(numbers@, task_columns(tasks@)),
{
    let by_home = columns_by_task(tasks);
    proof {
        lemma_pass_lengths(tasks@, tasks@.len());
    }
    let mut numbers: Vec<u64> = Vec::new();
    let mut i: usize = 0;
    while i < tasks.len()
        invariant
            i <= tasks@.len(),
            numbers@.len() == i,
            by_home@.len() == tasks@.len(),
            are_columns(by_home@, final_columns(tasks@)),
            forall|j: int| 0 <= j < i ==> #[trigger] numbers@[j] == task_columns(tasks@)[j],
        decreases tasks.len() - i,
    {
        proof {
            lemma_home(tasks@, i as int);
        }
        let home: usize = match find_place(tasks, tasks[i].task_id.as_str()) {
            Some(home) => home,
            None => i,
        };
        numbers.push(by_home[home]);
        i = i + 1;
    }
    numbers
}

/// How wide the drawing of a job is.
pub open spec fn drawing_width(tasks: Seq<TaskDisplay>) -> int {
    if tasks.len() == 0 {
        0
    } else {
        row_width(different(task_columns(tasks))) + 2
    }
}

/// How high the drawing of a job is.
pub open spec fn drawing_height(tasks: Seq<TaskDisplay>) -> int {
    if tasks.len() == 0 {
        0
    } else {
        stack_height(tallest(task_columns(tasks), tasks.len())) + 2
    }
}

/// Draws a job: a node for each task, and a curve for each dependency on a task of the job.
pub fn build(tasks: &Vec<TaskDisplay>) -> (dag: Dag)
    requires
        tasks@.len() <= u32::MAX,
    ensures
        dag.nodes@.len() == tasks@.len(),
        forall|i: int| 0 <= i < tasks@.len() ==> draws(#[trigger] dag.nodes@[i], tasks@, i),
        paths(dag.edges@) == all_curves(tasks@, tasks@.len()),
        dag.node_width == NODE_WIDTH,
        dag.node_height == NODE_HEIGHT,
        dag.width == drawing_width(tasks@),
        dag.height == drawing_height(tasks@),
{
    if tasks.len() == 0 {
        let edges: Vec<DagEdge> = Vec::new();
        assert(paths(edges@) =~= all_curves(tasks@, 0));
        return Dag {
            nodes: Vec::new(),
            edges,
            node_width: NODE_WIDTH,
            node_height: NODE_HEIGHT,
            width: 0,
            height: 0,
        };
    }
    let numbers = columns_of_tasks(tasks);
    let ghost columns = task_columns(tasks@);
    let tallest_column: usize = find_tallest(&numbers, Ghost(columns));
    let all_columns: usize = count_before(&numbers, None, Ghost(columns));
    let content_width: i64 = all_columns as i64 * (NODE_WIDTH + COLUMN_GAP) - COLUMN_GAP;
    let content_height: i64 = tallest_column as i64 * (NODE_HEIGHT + ROW_GAP) - ROW_GAP;
    let mut nodes: Vec<DagNode> = Vec::new();
    let mut edges: Vec<DagEdge> = Vec::new();
    let mut i: usize = 0;
    assert(paths(edges@) =~= all_curves(tasks@, 0));
    while i < tasks.len()
        invariant
            i <= tasks@.len(),
            tasks@.len() <= u32::MAX,
            columns == task_columns(tasks@),
            are_columns(numbers@, columns),
            tallest_column == tallest(columns, columns.len()),
            tallest_column <= numbers@.len(),
            nodes@.len() == i,
            forall|j: int| 0 <= j < i ==> draws(#[trigger] nodes@[j], tasks@, j),
            paths(edges@) == all_curves(tasks@, i as nat),
        decreases tasks.len() - i,
    {
        proof {
            lemma_last_place(tasks@, tasks@[i as int].task_id@);
        }
        let place: usize = match find_last_place(tasks, tasks[i].task_id.as_str()) {
            Some(place) => place,
            None => i,
        };
        let to = position(&numbers, tallest_column, place, Ghost(tasks@));
        nodes.push(
            DagNode {
                label: shorten(tasks[i].task_id.as_str(), LABEL_MAX_CHARS),
                x: to.0,
                y: to.1,
                center_x: to.0 + NODE_WIDTH / 2,
                center_y: to.1 + NODE_HEIGHT / 2,
            },
        );
        let ghost before = paths(edges@);
        let mut k: usize = 0;
        assert(paths(edges@) =~= before + curves_to(tasks@, i as int, 0));
        while k < tasks[i].depends_on.len()
            invariant
                i < tasks@.len(),
                k <= tasks@[i as int].depends_on@.len(),
                tasks@.len() <= u32::MAX,
                columns == task_columns(tasks@),
                are_columns(numbers@, columns),
                tallest_column == tallest(columns, columns.len()),
                tallest_column <= numbers@.len(),
                to.0 == x_of(tasks@, drawn_at(tasks@, i as int)),
                to.1 == y_of(tasks@, drawn_at(tasks@, i as int)),
                0 <= to.0 <= u32::MAX * 248,
                0 <= to.1 <= u32::MAX * 112,
                paths(edges@) == before + curves_to(tasks@, i as int, k as nat),
            decreases tasks@[i as int].depends_on@.len() - k,
        {
            match find_last_place(tasks, tasks[i].depends_on[k].as_str()) {
                Some(place) => {
                    let from = position(&numbers, tallest_column, place, Ghost(tasks@));
                    let ghost drawn = paths(edges@);
                    edges.push(DagEdge { path: write_curve(from, to) });
                    assert(paths(edges@) =~= drawn.push(edges@.last().path@));
                },
                None => {},
            }
            k = k + 1;
            assert(paths(edges@) =~= before + curves_to(tasks@, i as int, k as nat));
        }
        i = i + 1;
    }
    Dag {
        nodes,
        edges,
        node_width: NODE_WIDTH,
        node_height: NODE_HEIGHT,
        width: content_width + 2,
        height: content_height + 2,
    }
}

/// Tells whether a drawing is worth showing: boxes with nothing between them say nothing that
/// a list of tasks does not.
pub fn has_dependencies(dag: &Dag) -> (b: bool)
    ensures
        b == (dag.edges@.len() > 0),
{
    dag.edges.len() > 0
}

/// Whether tasks can be ranked so that each ranks above all it depends on: none depends on
/// itself, however indirectly.
pub open spec fn ranks_tasks(tasks: Seq<TaskDisplay>, ranks: Seq<nat>) -> bool {
    &&& ranks.len() == tasks.len()
    &&& forall|i: int| 0 <= i < ranks.len() ==> #[trigger] ranks[i] < tasks.len()
    &&& forall|i: int, k: int|
        #![trigger tasks[i].depends_on@[k]]
        0 <= i < tasks.len() && 0 <= k < tasks[i].depends_on@.len() ==> (place_of(
            tasks,
            tasks[i].depends_on@[k]@,
        ) matches Some(place) ==> ranks[place] < ranks[home_of(tasks, i)])
}

/// Whether no two tasks have the same name.
pub open spec fn names_are_distinct(tasks: Seq<TaskDisplay>) -> bool {
    forall|i: int, j: int|
        0 <= i < j < tasks.len() ==> (#[trigger] tasks[i]).task_id@ != (
        #[trigger] tasks[j]).task_id@
}

/// Whether a task stands past all it depends on.
pub open spec fn is_settled(tasks: Seq<TaskDisplay>, columns: Seq<nat>, i: int) -> bool {
    deepest(tasks, columns, tasks[i].depends_on@) matches Some(column) ==> column + 1
        <= columns[home_of(tasks, i)]
}

proof fn lemma_deepest_of_same(
    tasks: Seq<TaskDisplay>,
    a: Seq<nat>,
    b: Seq<nat>,
    names: Seq<String>,
)
    requires
        forall|k: int|
            0 <= k < names.len() ==> (place_of(tasks, (#[trigger] names[k])@) matches Some(place)
                ==> a[place] == b[place]),
    ensures
        deepest(tasks, a, names) == deepest(tasks, b, names),
    decreases names.len(),
{
    if names.len() > 0 {
        let shorter = names.drop_last();
        assert forall|k: int| 0 <= k < shorter.len() implies (place_of(
            tasks,
            (#[trigger] shorter[k])@,
        ) matches Some(place) ==> a[place] == b[place]) by {
            assert(shorter[k] == names[k]);
        }
        lemma_deepest_of_same(tasks, a, b, shorter);
        assert(names[names.len() - 1] == names.last());
    }
}

proof fn lemma_deepest_grows(
    tasks: Seq<TaskDisplay>,
    a: Seq<nat>,
    b: Seq<nat>,
    names: Seq<String>,
)
    requires
        a.len() == tasks.len(),
        b.len() == tasks.len(),
        forall|i: int| 0 <= i < a.len() ==> #[trigger] a[i] <= b[i],
    ensures
        match deepest(tasks, a, names) {
            Some(x) => deepest(tasks, b, names) matches Some(y) && x <= y,
            None => deepest(tasks, b, names) is None,
        },
    decreases names.len(),
{
    if names.len() > 0 {
        lemma_deepest_grows(tasks, a, b, names.drop_last());
        lemma_place(tasks, names.last()@);
    }
}

proof fn lemma_deepest_is_deep(
    tasks: Seq<TaskDisplay>,
    columns: Seq<nat>,
    names: Seq<String>,
    k: int,
)
    requires
        0 <= k < names.len(),
        place_of(tasks, names[k]@) is Some,
    ensures
        deepest(tasks, columns, names) matches Some(column) && column >= columns[place_of(
            tasks,
            names[k]@,
        )->0],
    decreases names.len(),
{
    if k < names.len() - 1 {
        assert(names.drop_last()[k] == names[k]);
        lemma_deepest_is_deep(tasks, columns, names.drop_last(), k);
    }
}

proof fn lemma_relaxed_grows(tasks: Seq<TaskDisplay>, columns: Seq<nat>, i: int)
    requires
        columns.len() == tasks.len(),
        0 <= i < tasks.len(),
    ensures
        relaxed(tasks, columns, i).len() == tasks.len(),
        forall|p: int|
            0 <= p < columns.len() ==> columns[p] <= #[trigger] relaxed(tasks, columns, i)[p],
        forall|p: int|
            0 <= p < columns.len() && p != home_of(tasks, i) ==> columns[p]
                == #[trigger] relaxed(tasks, columns, i)[p],
        deepest(tasks, columns, tasks[i].depends_on@) matches Some(column) ==> column + 1
            <= relaxed(tasks, columns, i)[home_of(tasks, i)],
{
    lemma_home(tasks, i);
}

/// Within a pass: tasks of a lower rank stay where they are, and those of this rank that were
/// gone over stand past all they depend on.
proof fn lemma_pass_settles(
    tasks: Seq<TaskDisplay>,
    ranks: Seq<nat>,
    start: Seq<nat>,
    rank: nat,
    n: nat,
)
    requires
        ranks_tasks(tasks, ranks),
        start.len() == tasks.len(),
        n <= tasks.len(),
        forall|j: int|
            0 <= j < tasks.len() && ranks[home_of(tasks, j)] < rank ==> #[trigger] is_settled(
                tasks,
                start,
                j,
            ),
    ensures
        ({
            let columns = relaxed_by(tasks, start, n);
            &&& columns.len() == tasks.len()
            &&& forall|p: int|
                0 <= p < tasks.len() && ranks[p] < rank ==> #[trigger] columns[p] == start[p]
            &&& forall|j: int|
                0 <= j < tasks.len() && (ranks[home_of(tasks, j)] < rank || ranks[home_of(
                    tasks,
                    j,
                )] == rank && j < n) ==> #[trigger] is_settled(tasks, columns, j)
        }),
    decreases n,
{
    if n > 0 {
        let m = (n - 1) as nat;
        let i = n - 1;
        lemma_pass_settles(tasks, ranks, start, rank, m);
        let before = relaxed_by(tasks, start, m);
        let columns = relaxed_by(tasks, start, n);
        let home = home_of(tasks, i);
        lemma_home(tasks, i);
        lemma_relaxed_grows(tasks, before, i);
        if ranks[home] < rank {
            assert(is_settled(tasks, before, i));
            assert(columns == before);
        }
        assert forall|p: int| 0 <= p < tasks.len() && ranks[p] < rank implies
            #[trigger] columns[p] == start[p] by {
            assert(before[p] == start[p]);
        }
        assert forall|j: int|
            0 <= j < tasks.len() && (ranks[home_of(tasks, j)] < rank || ranks[home_of(tasks, j)]
                == rank && j < n) implies #[trigger] is_settled(tasks, columns, j) by {
            lemma_home(tasks, j);
            let names = tasks[j].depends_on@;
            assert forall|k: int| 0 <= k < names.len() implies (place_of(
                tasks,
                (#[trigger] names[k])@,
            ) matches Some(place) ==> before[place] == columns[place]) by {
                lemma_place(tasks, names[k]@);
                assert(tasks[j].depends_on@[k] == names[k]);
                match place_of(tasks, names[k]@) {
                    Some(place) => {
                        assert(ranks[place] < rank);
                        assert(before[place] == start[place]);
                        assert(columns[place] == start[place]);
                    },
                    None => {},
                }
            }
            lemma_deepest_of_same(tasks, before, columns, names);
            if j != i {
                assert(is_settled(tasks, before, j));
            }
        }
    }
}

proof fn lemma_passes_settle(tasks: Seq<TaskDisplay>, ranks: Seq<nat>, passes: nat)
    requires
        ranks_tasks(tasks, ranks),
    ensures
        after_passes(tasks, passes).len() == tasks.len(),
        forall|j: int|
            0 <= j < tasks.len() && ranks[home_of(tasks, j)] < passes ==> #[trigger] is_settled(
                tasks,
                after_passes(tasks, passes),
                j,
            ),
    decreases passes,
{
    if passes > 0 {
        let rank = (passes - 1) as nat;
        lemma_passes_settle(tasks, ranks, rank);
        lemma_pass_settles(tasks, ranks, after_passes(tasks, rank), rank, tasks.len());
    }
}

/// Whether no task stands further than one past all it depends on.
pub open spec fn is_no_deeper(tasks: Seq<TaskDisplay>, columns: Seq<nat>, i: int) -> bool {
    columns[i] == 0 || (deepest(tasks, columns, tasks[i].depends_on@) matches Some(column)
        && columns[i] <= column + 1)
}

proof fn lemma_pass_is_no_deeper(tasks: Seq<TaskDisplay>, start: Seq<nat>, n: nat)
    requires
        names_are_distinct(tasks),
        start.len() == tasks.len(),
        n <= tasks.len(),
        forall|j: int| 0 <= j < tasks.len() ==> #[trigger] is_no_deeper(tasks, start, j),
    ensures
        relaxed_by(tasks, start, n).len() == tasks.len(),
        forall|j: int|
            0 <= j < tasks.len() ==> #[trigger] is_no_deeper(
                tasks,
                relaxed_by(tasks, start, n),
                j,
            ),
    decreases n,
{
    if n > 0 {
        let m = (n - 1) as nat;
        lemma_pass_is_no_deeper(tasks, start, m);
        let before = relaxed_by(tasks, start, m);
        let columns = relaxed_by(tasks, start, n);
        lemma_relaxed_grows(tasks, before, n - 1);
        lemma_place(tasks, tasks[n - 1].task_id@);
        assert forall|j: int| 0 <= j < tasks.len() implies #[trigger] is_no_deeper(
            tasks,
            columns,
            j,
        ) by {
            assert(is_no_deeper(tasks, before, j));
            lemma_deepest_grows(tasks, before, columns, tasks[j].depends_on@);
            if j != home_of(tasks, n - 1) {
                assert(before[j] == columns[j]);
            }
        }
    }
}

proof fn lemma_passes_are_no_deeper(tasks: Seq<TaskDisplay>, passes: nat)
    requires
        names_are_distinct(tasks),
    ensures
        after_passes(tasks, passes).len() == tasks.len(),
        forall|j: int|
            0 <= j < tasks.len() ==> #[trigger] is_no_deeper(
                tasks,
                after_passes(tasks, passes),
                j,
            ),
    decreases passes,
{
    if passes > 0 {
        let before = (passes - 1) as nat;
        lemma_passes_are_no_deeper(tasks, before);
        lemma_pass_is_no_deeper(tasks, after_passes(tasks, before), tasks.len());
    }
}

/// Wherever no task depends on itself, each stands one column past its deepest dependency,
/// and in the first column if it depends on none of the job's tasks.
pub proof fn a_task_stands_past_its_deepest_dependency(
    tasks: Seq<TaskDisplay>,
    ranks: Seq<nat>,
    i: int,
)
    requires
        names_are_distinct(tasks),
        ranks_tasks(tasks, ranks),
        0 <= i < tasks.len(),
    ensures
        task_columns(tasks)[i] == (match deepest(
            tasks,
            task_columns(tasks),
            tasks[i].depends_on@,
        ) {
            Some(column) => column + 1,
            None => 0,
        }),
{
    let columns = final_columns(tasks);
    lemma_passes_settle(tasks, ranks, tasks.len());
    lemma_passes_are_no_deeper(tasks, tasks.len());
    lemma_home(tasks, i);
    assert(is_settled(tasks, columns, i));
    assert(is_no_deeper(tasks, columns, i));
    assert forall|j: int| 0 <= j < tasks.len() implies #[trigger] task_columns(tasks)[j]
        == columns[j] by {
        lemma_place(tasks, tasks[j].task_id@);
        let home = home_of(tasks, j);
        if home < j {
            assert(tasks[home].task_id@ != tasks[j].task_id@);
        }
    }
    assert(task_columns(tasks) =~= columns);
    lemma_place(tasks, tasks[i].task_id@);
}

/// Wherever no task depends on itself, a dependency stands in a column before all that depend
/// on it: every curve leads to the right.
pub proof fn a_dependency_stands_before(tasks: Seq<TaskDisplay>, ranks: Seq<nat>, i: int, k: int)
    requires
        ranks_tasks(tasks, ranks),
        0 <= i < tasks.len(),
        0 <= k < tasks[i].depends_on@.len(),
        place_of(tasks, tasks[i].depends_on@[k]@) is Some,
    ensures
        final_columns(tasks)[place_of(tasks, tasks[i].depends_on@[k]@)->0]
            < task_columns(tasks)[i],
{
    lemma_passes_settle(tasks, ranks, tasks.len());
    lemma_home(tasks, i);
    assert(is_settled(tasks, final_columns(tasks), i));
    lemma_deepest_is_deep(tasks, final_columns(tasks), tasks[i].depends_on@, k);
}

proof fn lemma_counts_grow(columns: Seq<nat>, a: int, b: int)
    requires
        0 <= a < b < columns.len(),
        columns[a] == columns[b],
    ensures
        count_in(columns.take(a), columns[a]) < count_in(columns.take(b), columns[b]),
    decreases b,
{
    assert(columns.take(b).drop_last() =~= columns.take(b - 1));
    if a < b - 1 {
        lemma_counts_grow_to(columns, a, b - 1);
    } else {
        assert(columns.take(b).last() == columns[a]);
    }
}

proof fn lemma_counts_grow_to(columns: Seq<nat>, a: int, b: int)
    requires
        0 <= a < b <= columns.len(),
    ensures
        count_in(columns.take(a), columns[a]) < count_in(columns.take(b), columns[a]),
    decreases b,
{
    assert(columns.take(b).drop_last() =~= columns.take(b - 1));
    assert(columns.take(b).last() == columns[b - 1]);
    if a < b - 1 {
        lemma_counts_grow_to(columns, a, b - 1);
    }
}

proof fn lemma_columns_grow(columns: Seq<nat>, a: nat, b: nat)
    requires
        a < b,
    ensures
        columns_before(columns, a) <= columns_before(columns, b),
        columns.contains(a) ==> columns_before(columns, a) < columns_before(columns, b),
    decreases columns.len(),
{
    if columns.len() > 0 {
        let shorter = columns.drop_last();
        lemma_columns_grow(shorter, a, b);
        if columns.contains(a) && !shorter.contains(a) {
            let k = choose|k: int| 0 <= k < columns.len() && columns[k] == a;
            if k < columns.len() - 1 {
                assert(shorter[k] == a);
            }
        }
    }
}

proof fn lemma_tallest(columns: Seq<nat>, i: int, n: nat)
    requires
        0 <= i < n <= columns.len(),
    ensures
        count_in(columns, columns[i]) <= tallest(columns, n),
    decreases n,
{
    if i < n - 1 {
        lemma_tallest(columns, i, (n - 1) as nat);
    }
}

proof fn lemma_before_others(columns: Seq<nat>, column: nat)
    ensures
        columns_before(columns, column) <= different(columns),
        columns.contains(column) ==> columns_before(columns, column) < different(columns),
    decreases columns.len(),
{
    if columns.len() > 0 {
        let shorter = columns.drop_last();
        lemma_before_others(shorter, column);
        if columns.contains(column) && !shorter.contains(column) {
            let k = choose|k: int| 0 <= k < columns.len() && columns[k] == column;
            if k < columns.len() - 1 {
                assert(shorter[k] == column);
            }
        }
    }
}

/// Every task is drawn inside the drawing.
pub proof fn a_task_is_drawn_inside(tasks: Seq<TaskDisplay>, i: int)
    requires
        0 <= i < tasks.len(),
    ensures
        0 <= x_of(tasks, drawn_at(tasks, i)),
        x_of(tasks, drawn_at(tasks, i)) + NODE_WIDTH <= drawing_width(tasks),
        0 <= y_of(tasks, drawn_at(tasks, i)),
        y_of(tasks, drawn_at(tasks, i)) + NODE_HEIGHT <= drawing_height(tasks),
{
    let columns = task_columns(tasks);
    lemma_last_place(tasks, tasks[i].task_id@);
    let place = drawn_at(tasks, i);
    let column = columns[place];
    assert(columns.contains(column));
    lemma_before_others(columns, column);
    lemma_tallest(columns, place, columns.len());
    assert(columns.take(columns.len() as int) =~= columns);
    lemma_counts_grow_to(columns, place, columns.len() as int);
}

/// No two tasks are drawn over each other: their boxes are apart, beside or below each other.
pub proof fn no_two_tasks_are_drawn_over_each_other(tasks: Seq<TaskDisplay>, i: int, j: int)
    requires
        names_are_distinct(tasks),
        0 <= i < j < tasks.len(),
    ensures
        ({
            let (x, y) = (x_of(tasks, drawn_at(tasks, i)), y_of(tasks, drawn_at(tasks, i)));
            let (u, v) = (x_of(tasks, drawn_at(tasks, j)), y_of(tasks, drawn_at(tasks, j)));
            ||| x + NODE_WIDTH < u
            ||| u + NODE_WIDTH < x
            ||| y + NODE_HEIGHT < v
            ||| v + NODE_HEIGHT < y
        }),
{
    let columns = task_columns(tasks);
    lemma_last_place(tasks, tasks[i].task_id@);
    lemma_last_place(tasks, tasks[j].task_id@);
    let a = drawn_at(tasks, i);
    let b = drawn_at(tasks, j);
    if a > i {
        assert(tasks[i].task_id@ != tasks[a].task_id@);
    }
    if b > j {
        assert(tasks[j].task_id@ != tasks[b].task_id@);
    }
    assert(a == i && b == j);
    if columns[a] == columns[b] {
        lemma_counts_grow(columns, a, b);
    } else if columns[a] < columns[b] {
        assert(columns.contains(columns[a]));
        lemma_columns_grow(columns, columns[a], columns[b]);
    } else {
        assert(columns.contains(columns[b]));
        lemma_columns_grow(columns, columns[b], columns[a]);
    }
}

/// Every dependency on a task of the job is drawn: a curve leads from the last task of that
/// name to the task that depends on it, wherever in the job either stands.
pub proof fn every_dependency_is_drawn(tasks: Seq<TaskDisplay>, i: int, k: int, from: int)
    requires
        0 <= i < tasks.len(),
        0 <= k < tasks[i].depends_on@.len(),
        0 <= from < tasks.len(),
        tasks[from].task_id@ == tasks[i].depends_on@[k]@,
        forall|j: int|
            from < j < tasks.len() ==> (#[trigger] tasks[j]).task_id@
                != tasks[i].depends_on@[k]@,
    ensures
        all_curves(tasks, tasks.len()).contains(
            curve(
                x_of(tasks, from),
                y_of(tasks, from),
                x_of(tasks, drawn_at(tasks, i)),
                y_of(tasks, drawn_at(tasks, i)),
            ),
        ),
{
    lemma_last_place(tasks, tasks[i].depends_on@[k]@);
    let n = tasks[i].depends_on@.len();
    lemma_dependency_has_a_curve(tasks, i, k, from, n);
    lemma_curves_are_kept(tasks, i, tasks.len());
    let own = curves_to(tasks, i, n);
    let all = all_curves(tasks, tasks.len());
    let path = curve(
        x_of(tasks, from),
        y_of(tasks, from),
        x_of(tasks, drawn_at(tasks, i)),
        y_of(tasks, drawn_at(tasks, i)),
    );
    let a = choose|a: int| 0 <= a < own.len() && own[a] == path;
    assert(all.contains(own[a]));
}

proof fn lemma_dependency_has_a_curve(tasks: Seq<TaskDisplay>, i: int, k: int, from: int, n: nat)
    requires
        0 <= k < n,
        last_place_of(tasks, tasks[i].depends_on@[k]@) == Some(from),
    ensures
        curves_to(tasks, i, n).contains(
            curve(
                x_of(tasks, from),
                y_of(tasks, from),
                x_of(tasks, drawn_at(tasks, i)),
                y_of(tasks, drawn_at(tasks, i)),
            ),
        ),
    decreases n,
{
    let before = curves_to(tasks, i, (n - 1) as nat);
    let all = curves_to(tasks, i, n);
    if k == n - 1 {
        assert(all.last() == all[all.len() - 1]);
    } else {
        lemma_dependency_has_a_curve(tasks, i, k, from, (n - 1) as nat);
        let path = curve(
            x_of(tasks, from),
            y_of(tasks, from),
            x_of(tasks, drawn_at(tasks, i)),
            y_of(tasks, drawn_at(tasks, i)),
        );
        let a = choose|a: int| 0 <= a < before.len() && before[a] == path;
        assert(all[a] == path);
    }
}

proof fn lemma_curves_are_kept(tasks: Seq<TaskDisplay>, i: int, n: nat)
    requires
        0 <= i < n <= tasks.len(),
    ensures
        forall|path: Seq<char>| #[trigger]
            curves_to(tasks, i, tasks[i].depends_on@.len()).contains(path) ==> all_curves(
                tasks,
                n,
            ).contains(path),
    decreases n,
{
    let before = all_curves(tasks, (n - 1) as nat);
    let more = curves_to(tasks, n - 1, tasks[n - 1].depends_on@.len());
    let own = curves_to(tasks, i, tasks[i].depends_on@.len());
    let all = before + more;
    if i < n - 1 {
        lemma_curves_are_kept(tasks, i, (n - 1) as nat);
    }
    assert forall|path: Seq<char>| #[trigger] own.contains(path) implies all.contains(path) by {
        if i < n - 1 {
            let a = choose|a: int| 0 <= a < before.len() && before[a] == path;
            assert(all[a] == path);
        } else {
            let a = choose|a: int| 0 <= a < more.len() && more[a] == path;
            assert(all[before.len() + a] == path);
        }
    }
}

/// Nothing else is drawn: a job whose tasks depend on nothing, or on nothing that is one of
/// its tasks, has no curves.
pub proof fn only_dependencies_are_drawn(tasks: Seq<TaskDisplay>)
    ensures
        (forall|i: int, k: int, j: int|
            #![trigger tasks[i].depends_on@[k], tasks[j]]
            0 <= i < tasks.len() && 0 <= k < tasks[i].depends_on@.len() && 0 <= j < tasks.len()
                ==> tasks[i].depends_on@[k]@ != tasks[j].task_id@) ==> all_curves(
            tasks,
            tasks.len(),
        ).len() == 0,
{
    if forall|i: int, k: int, j: int|
        #![trigger tasks[i].depends_on@[k], tasks[j]]
        0 <= i < tasks.len() && 0 <= k < tasks[i].depends_on@.len() && 0 <= j < tasks.len()
            ==> tasks[i].depends_on@[k]@ != tasks[j].task_id@ {
        assert forall|i: int, k: int| 0 <= i < tasks.len() && 0 <= k < tasks[i].depends_on@.len()
            implies last_place_of(tasks, (#[trigger] tasks[i].depends_on@[k])@) is None by {
            lemma_last_place(tasks, tasks[i].depends_on@[k]@);
            if let Some(place) = last_place_of(tasks, tasks[i].depends_on@[k]@) {
                assert(tasks[place].task_id@ == tasks[i].depends_on@[k]@);
            }
        }
        lemma_no_curves(tasks, tasks.len());
    }
}

proof fn lemma_no_curves(tasks: Seq<TaskDisplay>, n: nat)
    requires
        n <= tasks.len(),
        forall|i: int, k: int|
            0 <= i < tasks.len() && 0 <= k < tasks[i].depends_on@.len() ==> last_place_of(
                tasks,
                (#[trigger] tasks[i].depends_on@[k])@,
            ) is None,
    ensures
        all_curves(tasks, n).len() == 0,
    decreases n,
{
    if n > 0 {
        lemma_no_curves(tasks, (n - 1) as nat);
        lemma_no_curves_to(tasks, n - 1, tasks[n - 1].depends_on@.len());
    }
}

proof fn lemma_no_curves_to(tasks: Seq<TaskDisplay>, i: int, n: nat)
    requires
        0 <= i < tasks.len(),
        n <= tasks[i].depends_on@.len(),
        forall|i: int, k: int|
            0 <= i < tasks.len() && 0 <= k < tasks[i].depends_on@.len() ==> last_place_of(
                tasks,
                (#[trigger] tasks[i].depends_on@[k])@,
            ) is None,
    ensures
        curves_to(tasks, i, n).len() == 0,
    decreases n,
{
    if n > 0 {
        lemma_no_curves_to(tasks, i, (n - 1) as nat);
        assert(last_place_of(tasks, tasks[i].depends_on@[n - 1]@) is None);
    }
}

} // verus!
