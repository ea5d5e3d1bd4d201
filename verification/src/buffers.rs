//! Which changes to a buffer make no difference.

use vstd::prelude::*;

use crate::abi::{
    GPUI_STATUS_INVALID_HANDLE, GPUI_STATUS_UNKNOWN_OPCODE, GPUI_STATUS_WRONG_NODE_KIND,
};
use crate::builder::Staging;
use crate::command::{Parsed, lemma_parse_advances, parse_at};
use crate::decode::{HEADER_LEN, decode, execute, has_header};
use crate::encode::{run, setter_op};
use crate::growth::lemma_run_one;
use crate::laws::{law_last_setter_wins, law_step_keeps_live, lemma_execute_live};
use crate::node::{Command, DivProps, Setter, Tree};
use crate::reader::u32_at;
use crate::stream::{
    header, law_streams_concat, lemma_decode_body, lemma_execute_concat, lemma_parse_extend,
    stream,
};
use crate::views::built;

verus! {

/// Whether a status comes from the first bad record rather than from the end of
/// the buffer.
pub open spec fn is_early(status: i32) -> bool {
    ||| status == GPUI_STATUS_INVALID_HANDLE
    ||| status == GPUI_STATUS_WRONG_NODE_KIND
    ||| status == GPUI_STATUS_UNKNOWN_OPCODE
}

proof fn lemma_early_failure(a: Seq<u8>, b: Seq<u8>, pos: int, staging: Staging)
    requires
        0 <= pos,
    ensures
        execute(a, pos, staging) matches Err(status) ==> (is_early(status) ==> execute(
            a + b,
            pos,
            staging,
        ) == Err::<Staging, i32>(status)),
    decreases a.len() - pos,
{
    lemma_parse_extend(a, b, pos);
    lemma_parse_advances(a, pos);
    if let Parsed::Cmd(command, end) = parse_at(a, pos) {
        if let Ok(next) = staging.step(command) {
            lemma_early_failure(a, b, end, next);
        }
    }
}

/// The first bad record decides: a buffer that is rejected for a handle, for the
/// kind of a node or for an opcode is rejected with the same status whatever
/// follows, and either way every slot is as it was.
pub proof fn law_first_bad_record_decides(
    slots: Seq<Option<Tree>>,
    view: int,
    data: Seq<u8>,
    more: Seq<u8>,
)
    ensures
        decode(data) matches Err(status) ==> (is_early(status) ==> {
            &&& decode(data + more) == Err::<Tree, i32>(status)
            &&& built(slots, view, data) == (status, slots)
            &&& built(slots, view, data + more) == (status, slots)
        }),
{
    if has_header(data) {
        lemma_early_failure(data, more, HEADER_LEN as int, Staging::empty());
        assert((data + more).take(4) =~= data.take(4));
        assert(u32_at(data + more, 4) == u32_at(data, 4));
        law_step_keeps_live(Staging::empty(), Command::Div);
        lemma_execute_live(data, HEADER_LEN as int, Staging::empty());
    }
}

/// Setters with different opcodes can be applied in either order.
#[verifier::rlimit(50)]
#[verifier::spinoff_prover]
pub proof fn law_setters_commute(
    props: DivProps<Seq<char>>,
    a: Setter<Seq<char>>,
    b: Setter<Seq<char>>,
)
    requires
        setter_op(a) != setter_op(b),
    ensures
        props.with(a).with(b) == props.with(b).with(a),
{
}

/// Two setters in a row, as one step.
proof fn lemma_two_setters(a: Setter<Seq<char>>, b: Setter<Seq<char>>, staging: Staging)
    ensures
        setter_op(a) != setter_op(b) ==> run(seq![Command::Apply(a), Command::Apply(b)], staging)
            == run(seq![Command::Apply(b), Command::Apply(a)], staging),
        setter_op(a) == setter_op(b) ==> run(seq![Command::Apply(a), Command::Apply(b)], staging)
            == run(seq![Command::Apply(b)], staging),
{
    let (ca, cb) = (Command::Apply(a), Command::Apply(b));
    lemma_run_two(ca, cb, staging);
    lemma_run_two(cb, ca, staging);
    lemma_run_one(cb, staging);
    if staging.stack.len() > 0 && staging.in_range(staging.stack.last()) {
        let top = staging.stack.last() as int;
        if let Some(Tree::Div { props, children }) = staging.nodes[top] {
            if setter_op(a) != setter_op(b) {
                law_setters_commute(props, a, b);
            } else {
                law_last_setter_wins(props, a, b);
            }
            let one = staging.applied(a)->Ok_0.applied(b)->Ok_0;
            let two = staging.applied(b)->Ok_0.applied(a)->Ok_0;
            let three = staging.applied(b)->Ok_0;
            if setter_op(a) != setter_op(b) {
                assert(one.nodes =~= two.nodes);
            } else {
                assert(one.nodes =~= three.nodes);
            }
        }
    }
}

proof fn lemma_run_two(a: Command<Seq<char>>, b: Command<Seq<char>>, staging: Staging)
    ensures
        run(seq![a, b], staging) == match staging.step(a) {
            Ok(next) => next.step(b),
            Err(status) => Err(status),
        },
{
    assert(seq![a, b].drop_first() =~= seq![b]);
    if let Ok(next) = staging.step(a) {
        lemma_run_one(b, next);
    }
}

/// Records that have the same effect on every staging can stand for each other.
proof fn lemma_same_effect(
    before: Seq<u8>,
    one: Seq<u8>,
    two: Seq<u8>,
    after: Seq<u8>,
    xs: Seq<Command<Seq<char>>>,
    ys: Seq<Command<Seq<char>>>,
)
    requires
        stream(before) is Some,
        stream(one) == Some(xs),
        stream(two) == Some(ys),
        forall|staging: Staging| #[trigger] run(xs, staging) == run(ys, staging),
    ensures
        decode(header() + (before + (one + after))) == decode(
            header() + (before + (two + after)),
        ),
{
    let start = Staging::empty();
    lemma_decode_body(before + (one + after));
    lemma_decode_body(before + (two + after));
    lemma_execute_concat(before, one + after, start);
    lemma_execute_concat(before, two + after, start);
    if let Ok(next) = run(stream(before)->Some_0, start) {
        lemma_execute_concat(one, after, next);
        lemma_execute_concat(two, after, next);
        assert(run(xs, next) == run(ys, next));
    }
}

proof fn lemma_pair_stream(
    one: Seq<u8>,
    two: Seq<u8>,
    a: Command<Seq<char>>,
    b: Command<Seq<char>>,
)
    requires
        stream(one) == Some(seq![a]),
        stream(two) == Some(seq![b]),
    ensures
        stream(one + two) == Some(seq![a, b]),
{
    law_streams_concat(one, two);
    assert(seq![a] + seq![b] =~= seq![a, b]);
}

/// Two setter records in a row with different opcodes can be swapped: the
/// buffer is decoded to the same tree or rejected with the same status.
pub proof fn law_setter_records_commute(
    slots: Seq<Option<Tree>>,
    view: int,
    before: Seq<u8>,
    one: Seq<u8>,
    two: Seq<u8>,
    after: Seq<u8>,
    a: Setter<Seq<char>>,
    b: Setter<Seq<char>>,
)
    requires
        stream(before) is Some,
        stream(one) == Some(seq![Command::Apply(a)]),
        stream(two) == Some(seq![Command::Apply(b)]),
        setter_op(a) != setter_op(b),
    ensures
        decode(header() + (before + (one + two + after))) == decode(
            header() + (before + (two + one + after)),
        ),
        built(slots, view, header() + (before + (one + two + after))) == built(
            slots,
            view,
            header() + (before + (two + one + after)),
        ),
{
    let (ca, cb) = (Command::Apply(a), Command::Apply(b));
    lemma_pair_stream(one, two, ca, cb);
    lemma_pair_stream(two, one, cb, ca);
    let (xs, ys) = (seq![ca, cb], seq![cb, ca]);
    assert forall|staging: Staging| #[trigger] run(xs, staging) == run(ys, staging) by {
        lemma_two_setters(a, b, staging);
    }
    lemma_same_effect(before, one + two, two + one, after, xs, ys);
}

/// Of two setter records in a row with the same opcode the first can be left
/// out: the buffer is decoded to the same tree or rejected with the same status.
pub proof fn law_overwritten_record_drops(
    slots: Seq<Option<Tree>>,
    view: int,
    before: Seq<u8>,
    one: Seq<u8>,
    two: Seq<u8>,
    after: Seq<u8>,
    a: Setter<Seq<char>>,
    b: Setter<Seq<char>>,
)
    requires
        stream(before) is Some,
        stream(one) == Some(seq![Command::Apply(a)]),
        stream(two) == Some(seq![Command::Apply(b)]),
        setter_op(a) == setter_op(b),
    ensures
        decode(header() + (before + (one + two + after))) == decode(
            header() + (before + (two + after)),
        ),
        built(slots, view, header() + (before + (one + two + after))) == built(
            slots,
            view,
            header() + (before + (two + after)),
        ),
{
    let (ca, cb) = (Command::Apply(a), Command::Apply(b));
    lemma_pair_stream(one, two, ca, cb);
    let (xs, ys) = (seq![ca, cb], seq![cb]);
    assert forall|staging: Staging| #[trigger] run(xs, staging) == run(ys, staging) by {
        lemma_two_setters(a, b, staging);
    }
    lemma_same_effect(before, one + two, two, after, xs, ys);
}

} // verus!
