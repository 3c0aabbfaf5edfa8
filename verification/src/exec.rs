//! What a freshly forked child does before it becomes the program.

use vstd::prelude::*;

verus! {

/// The number of the standard input.
pub const STDIN_FILENO: i32 = 0;

/// The number of the standard output.
pub const STDOUT_FILENO: i32 = 1;

/// The number of the standard error.
pub const STDERR_FILENO: i32 = 2;

/// One thing the child does. Where one fails, the child exits.
#[derive(Clone, Copy, Debug, PartialEq, Eq, Structural)]
pub enum ChildStep {
    /// Make the prepared environment the current one.
    UseEnvironment,
    /// Make `target` refer to what `fd` refers to. With `copy_first`, `fd` is
    /// first duplicated and the duplicate is used.
    Redirect { fd: i32, copy_first: bool, target: i32 },
    /// Leave the descriptor open in the new program.
    KeepOpen(i32),
    /// Ask to be killed when the parent dies.
    DieWithParent,
    /// Become the program.
    Execute,
}

/// The step that connects a standard stream, where it is to be connected.
pub open spec fn redirection(fd: Option<i32>, target: i32) -> Seq<ChildStep> {
    match fd {
        Some(fd) => seq![
            ChildStep::Redirect { fd, copy_first: 0 < fd <= STDERR_FILENO, target },
        ],
        None => seq![],
    }
}

/// All that the child does, in order.
pub open spec fn exec_steps(
    stdin: Option<i32>,
    stdout: Option<i32>,
    stderr: Option<i32>,
    pass_fds: Seq<i32>,
) -> Seq<ChildStep> {
    seq![ChildStep::UseEnvironment] + redirection(stdin, STDIN_FILENO) + redirection(
        stdout,
        STDOUT_FILENO,
    ) + redirection(stderr, STDERR_FILENO) + pass_fds.map_values(|fd: i32| ChildStep::KeepOpen(fd))
        + seq![ChildStep::DieWithParent, ChildStep::Execute]
}

/// Adds the step that connects a standard stream.
fn push_redirection(steps: &mut Vec<ChildStep>, fd: Option<i32>, target: i32)
    ensures
        final(steps)@ == old(steps)@ + redirection(fd, target),
{
    if let Some(fd) = fd {
        let copy_first = fd > 0 && fd <= STDERR_FILENO;
        steps.push(ChildStep::Redirect { fd, copy_first, target });
    }
    assert(steps@ =~= old(steps)@ + redirection(fd, target));
}

/// What the child does: take the environment, connect its standard streams,
/// keep the passed descriptors open, bind its life to the parent's, and become
/// the program.
pub fn exec(
    stdin: Option<i32>,
    stdout: Option<i32>,
    stderr: Option<i32>,
    pass_fds: &Vec<i32>,
) -> (steps: Vec<ChildStep>)
    ensures
        steps@ == exec_steps(stdin, stdout, stderr, pass_fds@),
        steps@.len() >= 3 + pass_fds@.len(),
        steps@[0] == ChildStep::UseEnvironment,
        steps@[steps@.len() - 2] == ChildStep::DieWithParent,
        steps@[steps@.len() - 1] == ChildStep::Execute,
{
    let mut steps: Vec<ChildStep> = Vec::new();
    steps.push(ChildStep::UseEnvironment);
    push_redirection(&mut steps, stdin, STDIN_FILENO);
    push_redirection(&mut steps, stdout, STDOUT_FILENO);
    push_redirection(&mut steps, stderr, STDERR_FILENO);
    let ghost streams = steps@;
    let ghost kept = pass_fds@.map_values(|fd: i32| ChildStep::KeepOpen(fd));
    assert(kept.take(0) =~= seq![]);
    let mut i: usize = 0;
    while i < pass_fds.len()
        invariant
            i <= pass_fds@.len(),
            kept == pass_fds@.map_values(|fd: i32| ChildStep::KeepOpen(fd)),
            steps@ == streams + kept.take(i as int),
        decreases pass_fds@.len() - i,
    {
        steps.push(ChildStep::KeepOpen(pass_fds[i]));
        assert(kept.take(i + 1) =~= kept.take(i as int).push(kept[i as int]));
        assert(steps@ =~= streams + kept.take(i + 1));
        i += 1;
    }
    assert(kept.take(kept.len() as int) =~= kept);
    steps.push(ChildStep::DieWithParent);
    steps.push(ChildStep::Execute);
    assert(steps@ =~= exec_steps(stdin, stdout, stderr, pass_fds@));
    proof {
        law_child_does_all_in_order(stdin, stdout, stderr, pass_fds@);
    }
    steps
}

/// What a descriptor number refers to, and whether it is closed when the
/// process becomes another program.
pub struct OpenFile {
    pub file: int,
    pub close_on_exec: bool,
}

/// The table after the file that `from` refers to is put on the number `to`.
/// Putting a number on itself changes nothing.
pub open spec fn put_on(table: Map<int, OpenFile>, from: int, to: int) -> Map<int, OpenFile> {
    if from == to {
        table
    } else {
        table.insert(to, OpenFile { file: table[from].file, close_on_exec: false })
    }
}

/// The table after one step, where a duplicate gets the number `copy`.
pub open spec fn after_step(
    table: Map<int, OpenFile>,
    step: ChildStep,
    copy: int,
) -> Map<int, OpenFile> {
    match step {
        ChildStep::Redirect { fd, copy_first, target } => if copy_first {
            put_on(put_on(table, fd as int, copy), copy, target as int)
        } else {
            put_on(table, fd as int, target as int)
        },
        ChildStep::KeepOpen(fd) => table.insert(
            fd as int,
            OpenFile { file: table[fd as int].file, close_on_exec: false },
        ),
        _ => table,
    }
}

/// The table after the first `n` steps, where the duplicate made in step `i`
/// gets the number `copies[i]`.
pub open spec fn after_steps(
    table: Map<int, OpenFile>,
    steps: Seq<ChildStep>,
    copies: Seq<int>,
    n: nat,
) -> Map<int, OpenFile>
    decreases n,
{
    if n == 0 {
        table
    } else {
        after_step(
            after_steps(table, steps, copies, (n - 1) as nat),
            steps[n - 1],
            copies[n - 1],
        )
    }
}

/// Duplicates get numbers that are not in use.
pub open spec fn copies_are_fresh(
    table: Map<int, OpenFile>,
    steps: Seq<ChildStep>,
    copies: Seq<int>,
) -> bool {
    &&& copies.len() == steps.len()
    &&& forall|i: int|
        0 <= i < steps.len() && (steps[i] matches ChildStep::Redirect { copy_first, .. }
            && copy_first) ==> !after_steps(table, steps, copies, i as nat).dom().contains(
            #[trigger] copies[i],
        )
}

/// `fd` is open.
pub open spec fn is_open(table: Map<int, OpenFile>, fd: int) -> bool {
    table.dom().contains(fd)
}

/// The file on the number `fd` is not replaced by another one when `source` is
/// put there before `fd` is used.
pub open spec fn keeps_file(
    table: Map<int, OpenFile>,
    source: Option<i32>,
    fd: Option<i32>,
    number: i32,
) -> bool {
    (fd == Some(number) && source is Some) ==> table[source->0 as int].file
        == table[number as int].file
}

/// The new program finds `source` on `number` and can use it.
pub open spec fn is_connected(
    before: Map<int, OpenFile>,
    after: Map<int, OpenFile>,
    source: Option<i32>,
    number: i32,
) -> bool {
    match source {
        Some(fd) => is_open(after, number as int) && after[number as int].file
            == before[fd as int].file && !after[number as int].close_on_exec,
        None => is_open(before, number as int) ==> is_open(after, number as int)
            && after[number as int].file == before[number as int].file,
    }
}

/// Leaving descriptors open changes no file, and each of them stays open in
/// the new program.
proof fn lemma_keep_open(
    table: Map<int, OpenFile>,
    steps: Seq<ChildStep>,
    copies: Seq<int>,
    from: nat,
    pass_fds: Seq<i32>,
    n: nat,
)
    requires
        n <= pass_fds.len(),
        from + pass_fds.len() <= steps.len(),
        forall|i: int|
            0 <= i < pass_fds.len() ==> #[trigger] steps[from + i] == ChildStep::KeepOpen(
                pass_fds[i],
            ),
        forall|i: int|
            0 <= i < pass_fds.len() ==> is_open(
                after_steps(table, steps, copies, from),
                #[trigger] pass_fds[i] as int,
            ),
    ensures
        ({
            let start = after_steps(table, steps, copies, from);
            let end = after_steps(table, steps, copies, from + n);
            &&& end.dom() == start.dom()
            &&& forall|fd: int|
                #![trigger end[fd]]
                is_open(start, fd) ==> end[fd].file == start[fd].file && (end[fd].close_on_exec
                    ==> start[fd].close_on_exec)
            &&& forall|i: int| 0 <= i < n ==> !end[#[trigger] pass_fds[i] as int].close_on_exec
        }),
    decreases n,
{
    if n > 0 {
        lemma_keep_open(table, steps, copies, from, pass_fds, (n - 1) as nat);
        let start = after_steps(table, steps, copies, from);
        let previous = after_steps(table, steps, copies, (from + n - 1) as nat);
        let end = after_steps(table, steps, copies, from + n);
        assert(steps[from + (n - 1)] == ChildStep::KeepOpen(pass_fds[n - 1]));
        assert(is_open(start, pass_fds[n - 1] as int));
        assert(end.dom() =~= start.dom());
    }
}

/// The new program's standard streams are the ones it was given, the streams it
/// was given none for are the parent's, and every passed descriptor is open in
/// it. One that is not the number of a standard stream still refers to its file.
///
/// This is said of tables in which a descriptor is not overwritten by another
/// file before it is used: the standard output or error given as number 0 while
/// the input is connected too, or the error given as number 1 while the output
/// is connected too. And where the input is given as number 0, that number must
/// not be one that is closed on exec.
pub proof fn law_child_has_its_streams(
    table: Map<int, OpenFile>,
    stdin: Option<i32>,
    stdout: Option<i32>,
    stderr: Option<i32>,
    pass_fds: Seq<i32>,
    copies: Seq<int>,
)
    requires
        stdin matches Some(fd) ==> is_open(table, fd as int),
        stdout matches Some(fd) ==> is_open(table, fd as int),
        stderr matches Some(fd) ==> is_open(table, fd as int),
        forall|i: int| 0 <= i < pass_fds.len() ==> is_open(table, #[trigger] pass_fds[i] as int),
        copies_are_fresh(table, exec_steps(stdin, stdout, stderr, pass_fds), copies),
        keeps_file(table, stdin, stdout, STDIN_FILENO),
        keeps_file(table, stdin, stderr, STDIN_FILENO),
        keeps_file(table, stdout, stderr, STDOUT_FILENO),
        stdin == Some(STDIN_FILENO) ==> !table[0].close_on_exec || pass_fds.contains(STDIN_FILENO),
    ensures
        ({
            let steps = exec_steps(stdin, stdout, stderr, pass_fds);
            let after = after_steps(table, steps, copies, steps.len());
            &&& is_connected(table, after, stdin, STDIN_FILENO)
            &&& is_connected(table, after, stdout, STDOUT_FILENO)
            &&& is_connected(table, after, stderr, STDERR_FILENO)
            &&& forall|i: int|
                0 <= i < pass_fds.len() ==> is_open(after, #[trigger] pass_fds[i] as int)
                    && !after[pass_fds[i] as int].close_on_exec && (pass_fds[i] > STDERR_FILENO
                    ==> after[pass_fds[i] as int].file == table[pass_fds[i] as int].file)
        }),
{
    let steps = exec_steps(stdin, stdout, stderr, pass_fds);
    let a: nat = 1;
    let b: nat = a + redirection(stdin, STDIN_FILENO).len();
    let c: nat = b + redirection(stdout, STDOUT_FILENO).len();
    let d: nat = c + redirection(stderr, STDERR_FILENO).len();
    let e: nat = d + pass_fds.len();
    assert(steps.len() == e + 2);
    let t1 = after_steps(table, steps, copies, a);
    let t2 = after_steps(table, steps, copies, b);
    let t3 = after_steps(table, steps, copies, c);
    let t4 = after_steps(table, steps, copies, d);
    let t5 = after_steps(table, steps, copies, e);
    let t6 = after_steps(table, steps, copies, e + 1);
    let t7 = after_steps(table, steps, copies, e + 2);
    reveal_with_fuel(after_steps, 2);
    assert(steps[0] == ChildStep::UseEnvironment);
    assert(t1 == table);
    if stdin is Some {
        assert(steps[a as int] == redirection(stdin, STDIN_FILENO)[0]);
        let _ = copies[a as int];
    }
    if stdout is Some {
        assert(steps[b as int] == redirection(stdout, STDOUT_FILENO)[0]);
        let _ = copies[b as int];
    }
    if stderr is Some {
        assert(steps[c as int] == redirection(stderr, STDERR_FILENO)[0]);
        let _ = copies[c as int];
    }
    assert(steps[e as int] == ChildStep::DieWithParent);
    assert(steps[e + 1int] == ChildStep::Execute);
    assert(is_connected(table, t2, stdin, STDIN_FILENO) || stdin == Some(STDIN_FILENO));
    assert(forall|i: int|
        0 <= i < pass_fds.len() ==> is_open(t4, #[trigger] pass_fds[i] as int));
    assert forall|i: int| 0 <= i < pass_fds.len() implies #[trigger] steps[d + i]
        == ChildStep::KeepOpen(pass_fds[i]) by {}
    lemma_keep_open(table, steps, copies, d, pass_fds, pass_fds.len());
    assert(t6 == t5);
    assert(t7 == t6);
}

/// The descriptor, where there is one, is none of the standard ones.
pub open spec fn is_ordinary(fd: Option<i32>) -> bool {
    fd matches Some(fd) ==> fd > STDERR_FILENO
}

/// Where the parent's own standard streams are open, what it opens for a child
/// gets other numbers, and the child always has the streams and the passed
/// descriptors it was given.
pub proof fn law_ordinary_descriptors_always_connect(
    table: Map<int, OpenFile>,
    stdin: Option<i32>,
    stdout: Option<i32>,
    stderr: Option<i32>,
    pass_fds: Seq<i32>,
    copies: Seq<int>,
)
    requires
        is_ordinary(stdin) && is_ordinary(stdout) && is_ordinary(stderr),
        stdin matches Some(fd) ==> is_open(table, fd as int),
        stdout matches Some(fd) ==> is_open(table, fd as int),
        stderr matches Some(fd) ==> is_open(table, fd as int),
        forall|i: int| 0 <= i < pass_fds.len() ==> is_open(table, #[trigger] pass_fds[i] as int),
        copies.len() == exec_steps(stdin, stdout, stderr, pass_fds).len(),
    ensures
        ({
            let steps = exec_steps(stdin, stdout, stderr, pass_fds);
            let after = after_steps(table, steps, copies, steps.len());
            &&& is_connected(table, after, stdin, STDIN_FILENO)
            &&& is_connected(table, after, stdout, STDOUT_FILENO)
            &&& is_connected(table, after, stderr, STDERR_FILENO)
            &&& forall|i: int|
                0 <= i < pass_fds.len() ==> is_open(after, #[trigger] pass_fds[i] as int)
                    && !after[pass_fds[i] as int].close_on_exec && (pass_fds[i] > STDERR_FILENO
                    ==> after[pass_fds[i] as int].file == table[pass_fds[i] as int].file)
        }),
{
    let steps = exec_steps(stdin, stdout, stderr, pass_fds);
    assert forall|i: int| 0 <= i < steps.len() implies !(
    #[trigger] steps[i] matches ChildStep::Redirect { copy_first, .. } && copy_first) by {}
    assert(copies_are_fresh(table, steps, copies)) by {
        assert forall|i: int|
            0 <= i < steps.len() && (steps[i] matches ChildStep::Redirect { copy_first, .. }
                && copy_first) implies !after_steps(table, steps, copies, i as nat).dom().contains(
            #[trigger] copies[i],
        ) by {
            assert(!(steps[i] matches ChildStep::Redirect { copy_first, .. } && copy_first));
        }
    }
    law_child_has_its_streams(table, stdin, stdout, stderr, pass_fds, copies);
}

/// All that the child does: it takes its environment first and becomes the
/// program last, right after its life was bound to the parent's. In between it
/// connects the streams that are given, input, output and errors in this order,
/// and keeps every passed descriptor open. It does nothing else and nothing
/// twice, and a stream that is not given is not touched.
pub proof fn law_child_does_all_in_order(
    stdin: Option<i32>,
    stdout: Option<i32>,
    stderr: Option<i32>,
    pass_fds: Seq<i32>,
)
    ensures
        ({
            let steps = exec_steps(stdin, stdout, stderr, pass_fds);
            let streams: int = (if stdin is Some {
                1int
            } else {
                0
            }) + (if stdout is Some {
                1int
            } else {
                0
            }) + (if stderr is Some {
                1int
            } else {
                0
            });
            &&& steps.len() == 3 + streams + pass_fds.len()
            &&& steps[0] == ChildStep::UseEnvironment
            &&& steps[steps.len() - 2] == ChildStep::DieWithParent
            &&& steps[steps.len() - 1] == ChildStep::Execute
            &&& forall|i: int| #![trigger steps[i]]
                1 <= i <= streams ==> steps[i] is Redirect
            &&& forall|i: int| #![trigger pass_fds[i]]
                0 <= i < pass_fds.len() ==> steps[1 + streams + i] == ChildStep::KeepOpen(
                    pass_fds[i],
                )
            &&& stdin matches Some(fd) ==> (steps[1] matches ChildStep::Redirect {
                fd: from,
                copy_first,
                target,
            } && from == fd && target == 0 && (copy_first <==> fd == 1 || fd == 2))
            &&& stdout matches Some(fd) ==> (steps[if stdin is Some {
                2int
            } else {
                1
            }] matches ChildStep::Redirect { fd: from, copy_first, target } && from == fd && target
                == 1 && (copy_first <==> fd == 1 || fd == 2))
            &&& stderr matches Some(fd) ==> (steps[streams] matches ChildStep::Redirect {
                fd: from,
                copy_first,
                target,
            } && from == fd && target == 2 && (copy_first <==> fd == 1 || fd == 2))
        }),
{
    let steps = exec_steps(stdin, stdout, stderr, pass_fds);
    let kept = pass_fds.map_values(|fd: i32| ChildStep::KeepOpen(fd));
    assert forall|i: int| 0 <= i < pass_fds.len() implies kept[i] == ChildStep::KeepOpen(
        #[trigger] pass_fds[i],
    ) by {}
}

/// The environment is taken, the child's life is bound to the parent's, and the
/// program is executed exactly once each, the program last.
pub proof fn law_child_executes_once_and_last(
    stdin: Option<i32>,
    stdout: Option<i32>,
    stderr: Option<i32>,
    pass_fds: Seq<i32>,
    i: int,
)
    requires
        0 <= i < exec_steps(stdin, stdout, stderr, pass_fds).len(),
    ensures
        ({
            let steps = exec_steps(stdin, stdout, stderr, pass_fds);
            &&& steps.len() >= 3
            &&& steps[i] == ChildStep::UseEnvironment <==> i == 0
            &&& steps[i] == ChildStep::DieWithParent <==> i == steps.len() - 2
            &&& steps[i] == ChildStep::Execute <==> i == steps.len() - 1
        }),
{
    law_child_does_all_in_order(stdin, stdout, stderr, pass_fds);
    let steps = exec_steps(stdin, stdout, stderr, pass_fds);
    let first = steps.len() - 2 - pass_fds.len();
    if first <= i < steps.len() - 2 {
        let _ = pass_fds[i - first];
    }
}

} // verus!
