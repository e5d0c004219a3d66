//! Building a tree from a flat stream of instructions.
//!
//! A parser that cannot hold on to the source while it runs may emit builder
//! lexemes instead of trees: "start a node", "here is a token", "finish the
//! node". [`build_green_tree`] replays such a stream on a
//! [`rowan::GreenNodeBuilder`]. A grammar like that of binary expressions
//! learns only late that what it has emitted belongs into a node of its own;
//! for this it records a checkpoint first and later starts the node *at* the
//! checkpoint, which wraps everything emitted since.
//!
//! The builder is a stack machine. [`Machine`] is its state as mathematics,
//! [`step`] what one instruction does to it, and [`built`] the tree that a
//! stream comes to. A stream that makes the machine fail is a defect of the
//! grammar that emitted it, never of the text parsed: no `ParseError` stands
//! for it.

use core::ops::Range;

use vstd::prelude::*;
use vstd::string::StringSliceAdditionalSpecFns;

use crate::ext::branch;
use crate::green::{forest_text, max_text_len, node_tree, Tree};
use crate::help::leaf;
use crate::text::{is_span, slice};

verus! {

/// `rowan::GreenNodeBuilder`. Nothing is known of its inside but what
/// [`builder_frames`] and [`builder_children`] name.
#[verifier::external_type_specification]
#[verifier::external_body]
pub struct ExGreenNodeBuilder<'cache>(rowan::GreenNodeBuilder<'cache>);

/// `rowan::Checkpoint`. Nothing is known of its inside but what
/// [`checkpoint_mark`] names.
#[verifier::external_type_specification]
#[verifier::external_body]
pub struct ExCheckpoint(rowan::Checkpoint);

/// "Builder lexeme". Token output emitted by parsers in a `Vec` to be fed to
/// a [`rowan::GreenNodeBuilder`], which [creates a green tree](build_green_tree).
#[derive(Debug)]
pub enum BLex {
    /// Starts a new node and makes it current.
    StartNode(rowan::SyntaxKind),
    /// Like `StartNode`, but the node starts at the last checkpoint on the
    /// stack of checkpoints, which is used up: everything emitted since the
    /// checkpoint was taken becomes the first children of the new node.
    StartNodeAt(rowan::SyntaxKind),
    /// Takes a checkpoint and pushes it onto the stack of checkpoints, to be
    /// consumed by `StartNodeAt`.
    Checkpoint,
    /// Adds a token to the current node. Its text is the given range of
    /// bytes of the source.
    Token(rowan::SyntaxKind, Range<usize>),
    /// Finishes the current node and makes its parent current again.
    FinishNode,
}

/// The state of the builder.
///
/// All elements that are finished, of whatever depth, lie in one row,
/// `children`. A node that was started and not yet finished is a frame: it
/// remembers its tag and the length that the row had when it started, and
/// owns what was added to the row since.
pub ghost struct Machine {
    /// The frames, the current one last: tag and place of the first child.
    pub frames: Seq<(u16, nat)>,
    /// The row of finished elements.
    pub children: Seq<Tree>,
    /// The checkpoints taken and not yet used, the latest last.
    pub checkpoints: Seq<nat>,
}

impl Machine {
    /// The state in which building starts.
    pub open spec fn start() -> Machine {
        Machine { frames: Seq::empty(), children: Seq::empty(), checkpoints: Seq::empty() }
    }

    /// Whether the frames lie within one another and within the row: no frame
    /// starts before the frame below it, and none behind the end of the row.
    pub open spec fn wf(self) -> bool {
        &&& forall|i: int, j: int|
            0 <= i <= j < self.frames.len() ==> (#[trigger] self.frames[i]).1 <= (
            #[trigger] self.frames[j]).1
        &&& forall|i: int|
            0 <= i < self.frames.len() ==> (#[trigger] self.frames[i]).1 <= self.children.len()
    }

    /// Whether a node may be started at `mark`: inside the row, and not
    /// before the start of the current frame.
    pub open spec fn admits(self, mark: nat) -> bool {
        &&& mark <= self.children.len()
        &&& self.frames.len() > 0 ==> self.frames.last().1 <= mark
    }

    /// Whether the tree is complete: no frame is open, and the row holds one
    /// element, which is a node.
    pub open spec fn done(self) -> bool {
        &&& self.frames.len() == 0
        &&& self.children.len() == 1
        &&& self.children[0] is Node
    }
}

/// What one instruction does to the builder, or `None` where the instruction
/// cannot be obeyed:
///
/// - a token whose range is no slice of the source;
/// - a node started at a checkpoint where none is left, or where the
///   checkpoint lies before the start of the current frame or behind the end
///   of the row;
/// - a node finished where no frame is open;
/// - a node finished whose text is longer than a node can record.
pub open spec fn step(machine: Machine, lexeme: BLex, text: Seq<u8>) -> Option<Machine> {
    match lexeme {
        BLex::StartNode(kind) => Some(
            Machine {
                frames: machine.frames.push((kind.0, machine.children.len())),
                ..machine
            },
        ),
        BLex::StartNodeAt(kind) => if machine.checkpoints.len() > 0 && machine.admits(
            machine.checkpoints.last(),
        ) {
            Some(
                Machine {
                    frames: machine.frames.push((kind.0, machine.checkpoints.last())),
                    checkpoints: machine.checkpoints.drop_last(),
                    ..machine
                },
            )
        } else {
            None
        },
        BLex::Checkpoint => Some(
            Machine { checkpoints: machine.checkpoints.push(machine.children.len()), ..machine },
        ),
        BLex::Token(kind, span) => if is_span(text, span.start as int, span.end as int) {
            Some(
                Machine {
                    children: machine.children.push(
                        leaf(kind.0, text, span.start as int, span.end as int),
                    ),
                    ..machine
                },
            )
        } else {
            None
        },
        BLex::FinishNode => if machine.frames.len() > 0 && forest_text(
            machine.children.skip(machine.frames.last().1 as int),
        ).len() <= max_text_len() {
            Some(
                Machine {
                    frames: machine.frames.drop_last(),
                    children: machine.children.take(machine.frames.last().1 as int).push(
                        branch(
                            machine.frames.last().0,
                            machine.children.skip(machine.frames.last().1 as int),
                        ),
                    ),
                    ..machine
                },
            )
        } else {
            None
        },
    }
}

/// What the instructions from the `from`-th on do to the builder, one after
/// the other; `None` where one of them cannot be obeyed.
pub open spec fn run(machine: Machine, stream: Seq<BLex>, from: int, text: Seq<u8>) -> Option<
    Machine,
>
    decreases stream.len() - from,
{
    if from < 0 || from >= stream.len() {
        Some(machine)
    } else {
        match step(machine, stream[from], text) {
            Some(next) => run(next, stream, from + 1, text),
            None => None,
        }
    }
}

/// The tree that a stream of instructions comes to, if it comes to one:
/// every instruction can be obeyed, and in the end every node that was
/// started is finished and one node is left.
pub open spec fn built(stream: Seq<BLex>, text: Seq<u8>) -> Option<Tree> {
    match run(Machine::start(), stream, 0, text) {
        Some(machine) => if machine.done() {
            Some(machine.children[0])
        } else {
            None
        },
        None => None,
    }
}

/// The frames stay within one another and within the row, whatever is done.
pub proof fn lemma_step_wf(machine: Machine, lexeme: BLex, text: Seq<u8>)
    requires
        machine.wf(),
        step(machine, lexeme, text).is_some(),
    ensures
        step(machine, lexeme, text).unwrap().wf(),
{
    let next = step(machine, lexeme, text).unwrap();
    match lexeme {
        BLex::StartNode(kind) => {
            assert forall|i: int, j: int| 0 <= i <= j < next.frames.len() implies (
            #[trigger] next.frames[i]).1 <= (#[trigger] next.frames[j]).1 by {
                if j < machine.frames.len() {
                    assert(machine.frames[i].1 <= machine.frames[j].1);
                } else if i < machine.frames.len() {
                    assert(machine.frames[i].1 <= machine.children.len());
                }
            }
        },
        BLex::StartNodeAt(kind) => {
            let mark = machine.checkpoints.last();
            assert forall|i: int, j: int| 0 <= i <= j < next.frames.len() implies (
            #[trigger] next.frames[i]).1 <= (#[trigger] next.frames[j]).1 by {
                if j < machine.frames.len() {
                    assert(machine.frames[i].1 <= machine.frames[j].1);
                } else if i < machine.frames.len() {
                    assert(machine.frames[i].1 <= machine.frames[machine.frames.len() - 1].1);
                }
            }
        },
        BLex::Checkpoint => {},
        BLex::Token(kind, span) => {
            assert forall|i: int| 0 <= i < next.frames.len() implies (
            #[trigger] next.frames[i]).1 <= next.children.len() by {
                assert(machine.frames[i].1 <= machine.children.len());
            }
        },
        BLex::FinishNode => {
            let top = machine.frames.len() - 1;
            assert(machine.frames[top].1 <= machine.children.len());
            assert forall|i: int, j: int| 0 <= i <= j < next.frames.len() implies (
            #[trigger] next.frames[i]).1 <= (#[trigger] next.frames[j]).1 by {
                assert(machine.frames[i].1 <= machine.frames[j].1);
            }
            assert forall|i: int| 0 <= i < next.frames.len() implies (
            #[trigger] next.frames[i]).1 <= next.children.len() by {
                assert(machine.frames[i].1 <= machine.frames[top].1);
            }
        },
    }
}

/// Checkpoint correctness. Let a node be started at the last checkpoint,
/// let building go on inside that node until its frame is the current one
/// again, with the row in front of the checkpoint untouched, and let the node
/// be finished then. The node stands where the checkpoint was, and its
/// children are exactly the elements that stand in the row from the
/// checkpoint on: those that were there when the node was started, which the
/// checkpoint wraps, and those added since, in their order. What stood in
/// front of the checkpoint stays as it was. No element is lost, doubled or
/// moved, and the frames and checkpoints are what they were before the node
/// was started, less the checkpoint used.
pub proof fn lemma_checkpoint_wraps(
    before: Machine,
    inside: Machine,
    kind: rowan::SyntaxKind,
    text: Seq<u8>,
)
    requires
        before.wf(),
        before.checkpoints.len() > 0,
        before.admits(before.checkpoints.last()),
        inside.frames == step(before, BLex::StartNodeAt(kind), text).unwrap().frames,
        inside.checkpoints == before.checkpoints.drop_last(),
        before.checkpoints.last() <= inside.children.len(),
        inside.children.take(before.checkpoints.last() as int) == before.children.take(
            before.checkpoints.last() as int,
        ),
        forest_text(inside.children.skip(before.checkpoints.last() as int)).len()
            <= max_text_len(),
    ensures
        ({
            let mark = before.checkpoints.last() as int;
            let after = step(inside, BLex::FinishNode, text);
            &&& step(before, BLex::StartNodeAt(kind), text).is_some()
            &&& after.is_some()
            &&& after.unwrap().frames == before.frames
            &&& after.unwrap().checkpoints == before.checkpoints.drop_last()
            &&& after.unwrap().children.len() == mark + 1
            &&& after.unwrap().children[mark] == branch(kind.0, inside.children.skip(mark))
            &&& after.unwrap().children.take(mark) == before.children.take(mark)
            &&& after.unwrap().children.take(mark) + after.unwrap().children[mark].children()
                == inside.children
        }),
{
    let mark = before.checkpoints.last() as int;
    let started = step(before, BLex::StartNodeAt(kind), text).unwrap();
    assert(started.frames.last() == (kind.0, mark as nat));
    assert(started.frames.drop_last() =~= before.frames);
    let after = step(inside, BLex::FinishNode, text).unwrap();
    assert(after.children.take(mark) =~= inside.children.take(mark));
    assert(inside.children.take(mark) + inside.children.skip(mark) =~= inside.children);
}

/// Stack discipline. An instruction changes the frames only at the top: it
/// opens one frame or closes the last one. A frame that is still open after
/// the instruction is as it was, and so is every frame below it and
/// everything in the row in front of its start.
pub proof fn lemma_step_keeps_outer(machine: Machine, lexeme: BLex, text: Seq<u8>, depth: int)
    requires
        machine.wf(),
        0 <= depth < machine.frames.len(),
        step(machine, lexeme, text) matches Some(next) && depth < next.frames.len(),
    ensures
        ({
            let next = step(machine, lexeme, text).unwrap();
            let start = machine.frames[depth].1 as int;
            &&& machine.frames.len() - 1 <= next.frames.len() <= machine.frames.len() + 1
            &&& next.frames.take(depth + 1) == machine.frames.take(depth + 1)
            &&& start <= next.children.len()
            &&& next.children.take(start) == machine.children.take(start)
        }),
{
    let next = step(machine, lexeme, text).unwrap();
    let start = machine.frames[depth].1 as int;
    let top = machine.frames.len() - 1;
    assert(machine.frames[depth].1 <= machine.frames[top].1);
    assert(machine.frames[top].1 <= machine.children.len());
    assert(next.frames.take(depth + 1) =~= machine.frames.take(depth + 1));
    assert(next.children.take(start) =~= machine.children.take(start));
}

/// What finishing a node does, however the node was started: the elements
/// that stand in the row from the start of its frame on become its children,
/// in their order, the node takes their place, and the frame is gone.
pub proof fn lemma_finish_collects(machine: Machine, text: Seq<u8>)
    requires
        machine.wf(),
        step(machine, BLex::FinishNode, text).is_some(),
    ensures
        ({
            let first = machine.frames.last().1 as int;
            let after = step(machine, BLex::FinishNode, text).unwrap();
            &&& after.children.len() == first + 1
            &&& after.children.last() == branch(machine.frames.last().0, machine.children.skip(first))
            &&& after.children.take(first) + after.children.last().children() == machine.children
            &&& after.frames == machine.frames.drop_last()
            &&& after.checkpoints == machine.checkpoints
        }),
{
    let first = machine.frames.last().1 as int;
    let top = machine.frames.len() - 1;
    assert(machine.frames[top].1 <= machine.children.len());
    let after = step(machine, BLex::FinishNode, text).unwrap();
    assert(after.children.take(first) =~= machine.children.take(first));
    assert(machine.children.take(first) + machine.children.skip(first) =~= machine.children);
}

/// The frames of a builder of [`rowan`]: for each node that was started and
/// not finished, its kind and the place of its first child in the row.
pub uninterp spec fn builder_frames(builder: rowan::GreenNodeBuilder<'static>) -> Seq<(u16, nat)>;

/// The row of finished elements of a builder of [`rowan`].
pub uninterp spec fn builder_children(builder: rowan::GreenNodeBuilder<'static>) -> Seq<Tree>;

/// The place in the row that a checkpoint of [`rowan`] marks.
pub uninterp spec fn checkpoint_mark(checkpoint: rowan::Checkpoint) -> nat;

/// Calls `rowan::GreenNodeBuilder::new`. A new builder has no frames and an
/// empty row.
#[verifier::external_body]
fn builder_new() -> (builder: rowan::GreenNodeBuilder<'static>)
    ensures
        builder_frames(builder) == Seq::<(u16, nat)>::empty(),
        builder_children(builder) == Seq::<Tree>::empty(),
{
    rowan::GreenNodeBuilder::new()
}

/// Calls `rowan::GreenNodeBuilder::token`, which adds a token of that kind
/// and text at the end of the row.
#[verifier::external_body]
fn builder_token(builder: &mut rowan::GreenNodeBuilder<'static>, kind: rowan::SyntaxKind, text: &str)
    ensures
        builder_frames(*final(builder)) == builder_frames(*old(builder)),
        builder_children(*final(builder)) == builder_children(*old(builder)).push(
            Tree::Token { kind: kind.0, text: text.spec_bytes() },
        ),
{
    builder.token(kind, text)
}

/// Calls `rowan::GreenNodeBuilder::start_node`, which opens a frame of that
/// kind at the end of the row.
#[verifier::external_body]
fn builder_start_node(builder: &mut rowan::GreenNodeBuilder<'static>, kind: rowan::SyntaxKind)
    ensures
        builder_frames(*final(builder)) == builder_frames(*old(builder)).push(
            (kind.0, builder_children(*old(builder)).len()),
        ),
        builder_children(*final(builder)) == builder_children(*old(builder)),
{
    builder.start_node(kind)
}

/// Calls `rowan::GreenNodeBuilder::finish_node`, which closes the last
/// frame: the elements from the frame's first child on leave the row and
/// become the children of a new node of the frame's kind, which is put at
/// the end of the row. There has to be a frame, it has to start inside the
/// row, and the text of the new node has to fit the length a node records.
#[verifier::external_body]
fn builder_finish_node(builder: &mut rowan::GreenNodeBuilder<'static>)
    requires
        builder_frames(*old(builder)).len() > 0,
        builder_frames(*old(builder)).last().1 <= builder_children(*old(builder)).len(),
        forest_text(
            builder_children(*old(builder)).skip(builder_frames(*old(builder)).last().1 as int),
        ).len() <= max_text_len(),
    ensures
        builder_frames(*final(builder)) == builder_frames(*old(builder)).drop_last(),
        builder_children(*final(builder)) == builder_children(*old(builder)).take(
            builder_frames(*old(builder)).last().1 as int,
        ).push(
            branch(
                builder_frames(*old(builder)).last().0,
                builder_children(*old(builder)).skip(
                    builder_frames(*old(builder)).last().1 as int,
                ),
            ),
        ),
{
    builder.finish_node()
}

/// Calls `rowan::GreenNodeBuilder::checkpoint`: the checkpoint marks the end
/// of the row.
#[verifier::external_body]
fn builder_checkpoint(builder: &rowan::GreenNodeBuilder<'static>) -> (checkpoint: rowan::Checkpoint)
    ensures
        checkpoint_mark(checkpoint) == builder_children(*builder).len(),
{
    builder.checkpoint()
}

/// Calls `rowan::GreenNodeBuilder::start_node_at`, which opens a frame of
/// that kind at the place the checkpoint marks. The place has to lie inside
/// the row and not before the start of the last frame.
#[verifier::external_body]
fn builder_start_node_at(
    builder: &mut rowan::GreenNodeBuilder<'static>,
    checkpoint: rowan::Checkpoint,
    kind: rowan::SyntaxKind,
)
    requires
        checkpoint_mark(checkpoint) <= builder_children(*old(builder)).len(),
        builder_frames(*old(builder)).len() > 0 ==> builder_frames(*old(builder)).last().1
            <= checkpoint_mark(checkpoint),
    ensures
        builder_frames(*final(builder)) == builder_frames(*old(builder)).push(
            (kind.0, checkpoint_mark(checkpoint)),
        ),
        builder_children(*final(builder)) == builder_children(*old(builder)),
{
    builder.start_node_at(checkpoint, kind)
}

/// Calls `rowan::GreenNodeBuilder::finish`, which hands out the one element
/// of the row. The row has to hold exactly one element, and that a node.
#[verifier::external_body]
fn builder_finish(builder: rowan::GreenNodeBuilder<'static>) -> (root: rowan::GreenNode)
    requires
        builder_children(builder).len() == 1,
        builder_children(builder)[0] is Node,
    ensures
        node_tree(root) == builder_children(builder)[0],
{
    builder.finish()
}

/// The text of the trees from the `from`-th on has the length that their
/// lengths add up to.
proof fn lemma_text_len_sum(children: Seq<Tree>, from: int, upto: int)
    requires
        0 <= from <= upto <= children.len(),
    ensures
        forest_text(children.subrange(from, upto)).len() == sum_lens(children, from, upto),
    decreases upto - from,
{
    if from == upto {
        assert(children.subrange(from, upto) =~= Seq::<Tree>::empty());
    } else {
        lemma_text_len_sum(children, from, upto - 1);
        assert(children.subrange(from, upto).drop_last() =~= children.subrange(from, upto - 1));
    }
}

/// The lengths of the texts of the trees from `from` up to `upto`, added up.
spec fn sum_lens(children: Seq<Tree>, from: int, upto: int) -> nat
    decreases upto - from,
{
    if from >= upto {
        0
    } else {
        sum_lens(children, from, upto - 1) + children[upto - 1].text().len()
    }
}

/// Adds up the lengths from `first` on; `None` where a node cannot record
/// the sum.
fn text_len_from(lens: &Vec<usize>, first: usize, Ghost(children): Ghost<Seq<Tree>>) -> (total:
    Option<usize>)
    requires
        first <= lens@.len(),
        lens@.len() == children.len(),
        forall|i: int| 0 <= i < lens@.len() ==> (#[trigger] lens@[i]) == children[i].text().len(),
    ensures
        total.is_some() == (forest_text(children.skip(first as int)).len() <= max_text_len()),
        total matches Some(sum) ==> sum == forest_text(children.skip(first as int)).len(),
{
    let mut sum: usize = 0;
    let mut at: usize = first;
    while at < lens.len()
        invariant
            first <= at <= lens@.len(),
            lens@.len() == children.len(),
            forall|i: int| 0 <= i < lens@.len() ==> (#[trigger] lens@[i]) == children[i].text().len(),
            sum == sum_lens(children, first as int, at as int),
            sum <= max_text_len(),
        decreases lens@.len() - at,
    {
        let len = lens[at];
        if len > 0xFFFF_FFFF || sum > 0xFFFF_FFFF - len {
            proof {
                lemma_sum_lens_grows(children, first as int, at + 1, children.len() as int);
                lemma_text_len_sum(children, first as int, children.len() as int);
                assert(children.skip(first as int) =~= children.subrange(
                    first as int,
                    children.len() as int,
                ));
            }
            return None;
        }
        sum = sum + len;
        at = at + 1;
    }
    proof {
        lemma_text_len_sum(children, first as int, children.len() as int);
        assert(children.skip(first as int) =~= children.subrange(
            first as int,
            children.len() as int,
        ));
    }
    Some(sum)
}

/// Adding up more lengths gives no less.
proof fn lemma_sum_lens_grows(children: Seq<Tree>, from: int, mid: int, upto: int)
    requires
        from <= mid <= upto,
    ensures
        sum_lens(children, from, mid) <= sum_lens(children, from, upto),
    decreases upto - mid,
{
    if mid < upto {
        lemma_sum_lens_grows(children, from, mid, upto - 1);
    }
}

/// A builder of [`rowan`] together with what has to be known of its state to
/// tell whether the next instruction can be obeyed. The builder cannot be
/// asked, so the numbers are kept beside it: the start of each frame, the
/// length of the text of each element of the row and whether the element is
/// a node, and the mark of each checkpoint.
struct Replay {
    builder: rowan::GreenNodeBuilder<'static>,
    cpoints: Vec<rowan::Checkpoint>,
    firsts: Vec<usize>,
    lens: Vec<usize>,
    nodes: Vec<bool>,
    marks: Vec<usize>,
}

impl Replay {
    /// Whether the builder is in the state `machine` and the numbers kept
    /// beside it are those of `machine`.
    spec fn holds(&self, machine: Machine) -> bool {
        &&& builder_frames(self.builder) == machine.frames
        &&& builder_children(self.builder) == machine.children
        &&& self.firsts@.len() == machine.frames.len()
        &&& forall|i: int|
            0 <= i < self.firsts@.len() ==> (#[trigger] self.firsts@[i]) == machine.frames[i].1
        &&& self.lens@.len() == machine.children.len()
        &&& self.nodes@.len() == machine.children.len()
        &&& forall|i: int|
            0 <= i < self.lens@.len() ==> (#[trigger] self.lens@[i])
                == machine.children[i].text().len()
        &&& forall|i: int|
            0 <= i < self.nodes@.len() ==> (#[trigger] self.nodes@[i]) == (
            machine.children[i] is Node)
        &&& self.marks@.len() == machine.checkpoints.len()
        &&& self.cpoints@.len() == machine.checkpoints.len()
        &&& forall|i: int|
            0 <= i < self.marks@.len() ==> (#[trigger] self.marks@[i]) == machine.checkpoints[i]
        &&& forall|i: int|
            0 <= i < self.cpoints@.len() ==> checkpoint_mark(#[trigger] self.cpoints@[i])
                == machine.checkpoints[i]
    }

    /// A new builder, in the state in which building starts.
    fn new() -> (replay: Replay)
        ensures
            replay.holds(Machine::start()),
    {
        Replay {
            builder: builder_new(),
            cpoints: Vec::new(),
            firsts: Vec::new(),
            lens: Vec::new(),
            nodes: Vec::new(),
            marks: Vec::new(),
        }
    }

    /// Obeys `StartNode`.
    fn start_node(&mut self, syn: rowan::SyntaxKind, Ghost(machine): Ghost<Machine>)
        requires
            old(self).holds(machine),
        ensures
            final(self).holds(step(machine, BLex::StartNode(syn), Seq::empty()).unwrap()),
    {
        builder_start_node(&mut self.builder, syn);
        self.firsts.push(self.lens.len());
    }

    /// Obeys `Checkpoint`.
    fn checkpoint(&mut self, Ghost(machine): Ghost<Machine>)
        requires
            old(self).holds(machine),
        ensures
            final(self).holds(step(machine, BLex::Checkpoint, Seq::empty()).unwrap()),
    {
        let cpoint = builder_checkpoint(&self.builder);
        self.cpoints.push(cpoint);
        self.marks.push(self.lens.len());
    }

    /// Obeys `StartNodeAt`, if it can be obeyed.
    fn start_node_at(&mut self, syn: rowan::SyntaxKind, Ghost(machine): Ghost<Machine>) -> (ok:
        bool)
        requires
            old(self).holds(machine),
        ensures
            ok == step(machine, BLex::StartNodeAt(syn), Seq::empty()).is_some(),
            ok ==> final(self).holds(step(machine, BLex::StartNodeAt(syn), Seq::empty()).unwrap()),
    {
        if self.marks.len() == 0 {
            return false;
        }
        let mark = self.marks[self.marks.len() - 1];
        let within = mark <= self.lens.len() && (self.firsts.len() == 0
            || self.firsts[self.firsts.len() - 1] <= mark);
        if !within {
            return false;
        }
        self.marks.pop();
        let cpoint = self.cpoints.pop().unwrap();
        builder_start_node_at(&mut self.builder, cpoint, syn);
        self.firsts.push(mark);
        true
    }

    /// Obeys `Token`, if it can be obeyed.
    fn token(
        &mut self,
        syn: rowan::SyntaxKind,
        start: usize,
        end: usize,
        source: &str,
        Ghost(machine): Ghost<Machine>,
    ) -> (ok: bool)
        requires
            old(self).holds(machine),
        ensures
            ok == step(machine, BLex::Token(syn, start..end), source.spec_bytes()).is_some(),
            ok ==> final(self).holds(
                step(machine, BLex::Token(syn, start..end), source.spec_bytes()).unwrap(),
            ),
    {
        if !(start <= end && end <= source.as_bytes().len() && source.is_char_boundary(start)
            && source.is_char_boundary(end)) {
            return false;
        }
        builder_token(&mut self.builder, syn, slice(source, start, end));
        self.lens.push(end - start);
        self.nodes.push(false);
        true
    }

    /// Obeys `FinishNode`, if it can be obeyed.
    fn finish_node(&mut self, Ghost(machine): Ghost<Machine>) -> (ok: bool)
        requires
            old(self).holds(machine),
            machine.wf(),
        ensures
            ok == step(machine, BLex::FinishNode, Seq::empty()).is_some(),
            ok ==> final(self).holds(step(machine, BLex::FinishNode, Seq::empty()).unwrap()),
    {
        if self.firsts.len() == 0 {
            return false;
        }
        let first = self.firsts[self.firsts.len() - 1];
        proof {
            let top = machine.frames.len() - 1;
            assert(machine.frames[top].1 <= machine.children.len());
        }
        let total = match text_len_from(&self.lens, first, Ghost(machine.children)) {
            Some(total) => total,
            None => {
                return false;
            },
        };
        self.firsts.pop();
        builder_finish_node(&mut self.builder);
        self.lens.truncate(first);
        self.lens.push(total);
        self.nodes.truncate(first);
        self.nodes.push(true);
        proof {
            let next = step(machine, BLex::FinishNode, Seq::empty()).unwrap();
            assert(next.children[first as int].text() == forest_text(
                machine.children.skip(first as int),
            ));
        }
        true
    }

    /// Obeys one instruction, if it can be obeyed.
    fn obey(&mut self, lexeme: &BLex, source: &str, Ghost(machine): Ghost<Machine>) -> (ok: bool)
        requires
            old(self).holds(machine),
            machine.wf(),
        ensures
            ok == step(machine, *lexeme, source.spec_bytes()).is_some(),
            ok ==> final(self).holds(step(machine, *lexeme, source.spec_bytes()).unwrap()),
    {
        match lexeme {
            BLex::StartNode(syn) => {
                self.start_node(*syn, Ghost(machine));
                true
            },
            BLex::StartNodeAt(syn) => self.start_node_at(*syn, Ghost(machine)),
            BLex::Checkpoint => {
                self.checkpoint(Ghost(machine));
                true
            },
            BLex::Token(syn, span) => self.token(*syn, span.start, span.end, source, Ghost(machine)),
            BLex::FinishNode => self.finish_node(Ghost(machine)),
        }
    }

    /// Hands out the tree, if it is complete.
    fn finish(self, Ghost(machine): Ghost<Machine>) -> (out: Option<rowan::GreenNode>)
        requires
            self.holds(machine),
        ensures
            out.is_some() == machine.done(),
            out matches Some(root) ==> node_tree(root) == machine.children[0],
    {
        if self.firsts.len() == 0 && self.nodes.len() == 1 && self.nodes[0] {
            Some(builder_finish(self.builder))
        } else {
            None
        }
    }
}

/// Assembles a [`rowan` green tree](rowan::GreenNode) from a stream of
/// instructions for a builder, if the stream comes to a tree; see [`built`]
/// for when it does.
#[must_use]
pub fn try_build_green_tree(source: &str, parsed: Vec<BLex>) -> (out: Option<rowan::GreenNode>)
    ensures
        match built(parsed@, source.spec_bytes()) {
            Some(tree) => out matches Some(root) && node_tree(root) == tree,
            None => out is None,
        },
{
    let ghost text = source.spec_bytes();
    let ghost stream = parsed@;
    let mut replay = Replay::new();
    let ghost mut machine = Machine::start();
    let mut at: usize = 0;
    while at < parsed.len()
        invariant
            text == source.spec_bytes(),
            stream == parsed@,
            at <= stream.len(),
            machine.wf(),
            run(Machine::start(), stream, 0, text) == run(machine, stream, at as int, text),
            replay.holds(machine),
        decreases stream.len() - at,
    {
        let ok = replay.obey(&parsed[at], source, Ghost(machine));
        if !ok {
            return None;
        }
        proof {
            lemma_step_wf(machine, stream[at as int], text);
            machine = step(machine, stream[at as int], text).unwrap();
        }
        at = at + 1;
    }
    replay.finish(Ghost(machine))
}

/// Assembles a [`rowan` green tree](rowan::GreenNode) from a stream of
/// instructions for a builder.
///
/// The stream has to come to a tree. One that does not is a defect of the
/// grammar that emitted it; [`try_build_green_tree`] tells such streams
/// apart.
#[must_use]
pub fn build_green_tree(source: &str, parsed: Vec<BLex>) -> (root: rowan::GreenNode)
    requires
        built(parsed@, source.spec_bytes()).is_some(),
    ensures
        node_tree(root) == built(parsed@, source.spec_bytes()).unwrap(),
{
    match try_build_green_tree(source, parsed) {
        Some(root) => root,
        None => vstd::pervasive::unreached(),
    }
}

} // verus!
