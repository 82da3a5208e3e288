//! Jumps along definitions and uses.

use vstd::prelude::*;

#[allow(unused_imports)]
use super::moves::less_one;
#[allow(unused_imports)]
use super::reach::{
    law_going_back_restores_the_place, lemma_here_exists, lemma_jump_keeps, stands_on,
};
#[allow(unused_imports)]
use super::refs::{
    consumer_lines, consumes, consuming, def_place, input_lines, insn_addr, line_of, user_lines,
};
#[allow(unused_imports)]
use super::{Anchor, AppModel, Leg};
#[allow(unused_imports)]
use crate::model::{CompilationModel, LineModel, NodeId, NodeRef, PhaseModel};
#[allow(unused_imports)]
use crate::parse::links::{defines, linked, refers, refs_of, used_at};

verus! {

/// The lines of a phase are lines of a machine.
pub open spec fn lines_fit(section: CompilationModel, phase: PhaseModel, p: int) -> bool {
    0 <= section.phases[p].start && section.phases[p].start + phase.infos.len() <= usize::MAX
}

proof fn lemma_input_found(
    section: CompilationModel,
    phase: PhaseModel,
    p: int,
    inputs: Seq<NodeRef>,
    n: int,
    k: int,
)
    requires
        0 <= k < n,
        def_place(phase, inputs[k].node) is Some,
    ensures
        input_lines(section, phase, p, inputs, n).contains(
            line_of(section, p, def_place(phase, inputs[k].node)->0),
        ),
    decreases n,
{
    let before = input_lines(section, phase, p, inputs, n - 1);
    let all = input_lines(section, phase, p, inputs, n);
    let line = line_of(section, p, def_place(phase, inputs[k].node)->0);
    if k == n - 1 {
        assert(all[before.len() as int] == line);
    } else {
        lemma_input_found(section, phase, p, inputs, n - 1, k);
        let j = choose|j: int| 0 <= j < before.len() && before[j] == line;
        assert(all[j] == line);
    }
}

proof fn lemma_input_is_definition(
    section: CompilationModel,
    phase: PhaseModel,
    p: int,
    inputs: Seq<NodeRef>,
    n: int,
    j: int,
) -> (k: int)
    requires
        0 <= n <= inputs.len(),
        0 <= j < input_lines(section, phase, p, inputs, n).len(),
    ensures
        0 <= k < n,
        def_place(phase, inputs[k].node) matches Some(i) && input_lines(
            section,
            phase,
            p,
            inputs,
            n,
        )[j] == line_of(section, p, i),
    decreases n,
{
    let before = input_lines(section, phase, p, inputs, n - 1);
    if j < before.len() {
        lemma_input_is_definition(section, phase, p, inputs, n - 1, j)
    } else {
        n - 1
    }
}

/// The line defines one of the inputs.
pub open spec fn defines_input(
    section: CompilationModel,
    phase: PhaseModel,
    p: int,
    inputs: Seq<NodeRef>,
    line: usize,
) -> bool {
    exists|k: int, i: int|
        0 <= k < inputs.len() && 0 <= i < phase.infos.len() && line == line_of(section, p, i)
            && #[trigger] defines(phase.infos[i], inputs[k].node)
}

/// The jumps to the inputs of a node land on lines that define one of them,
/// and every input that the phase defines is among them, at its last
/// definition.
pub proof fn law_inputs_lead_to_definitions(
    section: CompilationModel,
    phase: PhaseModel,
    p: int,
    inputs: Seq<NodeRef>,
)
    requires
        linked(phase.infos, phase.defs, phase.users),
    ensures
        forall|j: int|
            0 <= j < input_lines(section, phase, p, inputs, inputs.len() as int).len()
                ==> defines_input(
                section,
                phase,
                p,
                inputs,
                #[trigger] input_lines(section, phase, p, inputs, inputs.len() as int)[j],
            ),
        forall|k: int, i: int|
            0 <= k < inputs.len() && 0 <= i < phase.infos.len() && #[trigger] defines(
                phase.infos[i],
                inputs[k].node,
            ) ==> (def_place(phase, inputs[k].node) matches Some(d) && i <= d && input_lines(
                section,
                phase,
                p,
                inputs,
                inputs.len() as int,
            ).contains(line_of(section, p, d))),
{
    let n = inputs.len() as int;
    let lines = input_lines(section, phase, p, inputs, n);
    assert forall|j: int| 0 <= j < lines.len() implies defines_input(
        section,
        phase,
        p,
        inputs,
        #[trigger] lines[j],
    ) by {
        let k = lemma_input_is_definition(section, phase, p, inputs, n, j);
        let i = def_place(phase, inputs[k].node)->0;
        assert(phase.defs.dom().contains(inputs[k].node));
        assert(defines(phase.infos[i], inputs[k].node));
    }
    assert forall|k: int, i: int|
        0 <= k < inputs.len() && 0 <= i < phase.infos.len() && #[trigger] defines(
            phase.infos[i],
            inputs[k].node,
        ) implies (def_place(phase, inputs[k].node) matches Some(d) && i <= d && lines.contains(
        line_of(section, p, d),
    )) by {
        assert(phase.defs.dom().contains(inputs[k].node));
        lemma_input_found(section, phase, p, inputs, n, k);
    }
}

proof fn lemma_user_listed(
    section: CompilationModel,
    phase: PhaseModel,
    p: int,
    users: Seq<u32>,
    n: int,
    line: usize,
)
    requires
        0 <= n <= users.len(),
        lines_fit(section, phase, p),
    ensures
        user_lines(section, phase, p, users, n).contains(line) <==> exists|k: int|
            0 <= k < n && (#[trigger] users[k]) < phase.infos.len() && line == line_of(
                section,
                p,
                users[k] as int,
            ),
    decreases n,
{
    if n > 0 {
        lemma_user_listed(section, phase, p, users, n - 1, line);
        let before = user_lines(section, phase, p, users, n - 1);
        let all = user_lines(section, phase, p, users, n);
        if before.contains(line) {
            let j = choose|j: int| 0 <= j < before.len() && before[j] == line;
            assert(all[j] == line);
        }
        if all.contains(line) && !before.contains(line) {
            let j = choose|j: int| 0 <= j < all.len() && all[j] == line;
            if j < before.len() {
                assert(before[j] == line);
            }
            assert(users[n - 1] < phase.infos.len());
        }
        if users[n - 1] < phase.infos.len() && line == line_of(section, p, users[n - 1] as int) {
            assert(all[before.len() as int] == line);
        }
    }
}

/// The jumps to the consumers of a node go to exactly the lines of the phase
/// that refer to it.
pub proof fn law_consumers_are_the_uses(
    section: CompilationModel,
    phase: PhaseModel,
    p: int,
    id: NodeId,
    i: int,
)
    requires
        linked(phase.infos, phase.defs, phase.users),
        lines_fit(section, phase, p),
        phase.infos.len() <= u32::MAX,
        0 <= i < phase.infos.len(),
    ensures
        consumer_lines(section, phase, p, Anchor::Node(id)).contains(line_of(section, p, i))
            <==> refers(phase.infos[i], id),
{
    let line = line_of(section, p, i);
    assert(used_at(phase.users, id, i as u32) <==> refers(phase.infos[i], id));
    if phase.users.dom().contains(id) {
        let users = phase.users[id];
        lemma_user_listed(section, phase, p, users, users.len() as int, line);
        if users.contains(i as u32) {
            let k = choose|k: int| 0 <= k < users.len() && users[k] == i as u32;
            assert(users[k] < phase.infos.len());
        }
    }
}

proof fn lemma_consuming(
    section: CompilationModel,
    infos: Seq<LineModel>,
    p: int,
    anchor: Anchor,
    own: Option<u64>,
    n: int,
    i: int,
)
    requires
        0 <= i < infos.len(),
        0 <= n <= infos.len(),
        0 <= section.phases[p].start,
        section.phases[p].start + infos.len() <= usize::MAX,
    ensures
        consuming(section, infos, p, anchor, own, n).contains(line_of(section, p, i)) <==> i < n
            && consumes(infos[i], anchor, own),
    decreases n,
{
    if n > 0 {
        lemma_consuming(section, infos, p, anchor, own, n - 1, i);
        let before = consuming(section, infos, p, anchor, own, n - 1);
        let all = consuming(section, infos, p, anchor, own, n);
        let line = line_of(section, p, i);
        if before.contains(line) {
            let j = choose|j: int| 0 <= j < before.len() && before[j] == line;
            assert(all[j] == line);
        }
        if all.contains(line) && !before.contains(line) {
            let j = choose|j: int| 0 <= j < all.len() && all[j] == line;
            if j < before.len() {
                assert(before[j] == line);
            }
        }
        if i == n - 1 && consumes(infos[i], anchor, own) {
            assert(all[before.len() as int] == line);
        }
    }
}

/// The same holds of feedback slots, pool entries, jump targets, blocks and
/// rows of disassembly: the jumps go to exactly the lines that refer to them.
pub proof fn law_references_are_the_uses(
    section: CompilationModel,
    phase: PhaseModel,
    p: int,
    anchor: Anchor,
    i: int,
)
    requires
        !(anchor is Node),
        lines_fit(section, phase, p),
        0 <= i < phase.infos.len(),
    ensures
        consumer_lines(section, phase, p, anchor).contains(line_of(section, p, i)) <==> consumes(
            phase.infos[i],
            anchor,
            match anchor {
                Anchor::Insn(o) => insn_addr(phase.infos, o),
                _ => None,
            },
        ),
{
    let own = match anchor {
        Anchor::Insn(o) => insn_addr(phase.infos, o),
        _ => None,
    };
    lemma_consuming(section, phase.infos, p, anchor, own, phase.infos.len() as int, i);
}

/// Inputs and consumers are two directions of one link: where a line refers
/// to a node that the phase defines, the jump to its inputs can land on the
/// definition, and the jump to the consumers of the node can land on the line.
pub proof fn law_inputs_and_consumers_are_inverse(
    section: CompilationModel,
    phase: PhaseModel,
    p: int,
    i: int,
    id: NodeId,
)
    requires
        linked(phase.infos, phase.defs, phase.users),
        lines_fit(section, phase, p),
        phase.infos.len() <= u32::MAX,
        0 <= i < phase.infos.len(),
        refers(phase.infos[i], id),
        def_place(phase, id) is Some,
    ensures
        ({
            let inputs = refs_of(phase.infos[i]);
            &&& input_lines(section, phase, p, inputs, inputs.len() as int).contains(
                line_of(section, p, def_place(phase, id)->0),
            )
            &&& defines(phase.infos[def_place(phase, id)->0], id)
            &&& consumer_lines(section, phase, p, Anchor::Node(id)).contains(
                line_of(section, p, i),
            )
        }),
{
    let inputs = refs_of(phase.infos[i]);
    let k = choose|k: int| 0 <= k < inputs.len() && (#[trigger] inputs[k]).node == id;
    lemma_input_found(section, phase, p, inputs, inputs.len() as int, k);
    assert(phase.defs.dom().contains(id));
    law_consumers_are_the_uses(section, phase, p, id, i);
}

/// The same key goes through all targets in turn and then starts over.
pub proof fn law_a_cycle_goes_round(
    app: AppModel,
    anchor: Anchor,
    what: Leg,
    targets: Seq<usize>,
)
    requires
        0 < targets.len() <= usize::MAX,
    ensures
        ({
            let at = app.next_leg(anchor, targets);
            let next = app.cycled(anchor, what, targets).next_leg(anchor, targets);
            &&& 0 <= at < targets.len()
            &&& next == if at + 1 == targets.len() {
                0
            } else {
                at + 1
            }
        }),
{
    reveal(AppModel::with_cycle);
    reveal(AppModel::say);
    let n = targets.len() as int;
    if let Some(c) = app.cycle {
        vstd::arithmetic::div_mod::lemma_mod_bound(c.at + 1, n);
    }
    let at = app.next_leg(anchor, targets);
    if at + 1 < n {
        vstd::arithmetic::div_mod::lemma_small_mod((at + 1) as nat, n as nat);
    } else {
        vstd::arithmetic::div_mod::lemma_mod_self_0(n);
    }
}

/// A jump of a cycle lands on its target, and going back returns to where it
/// was made.
pub proof fn law_a_cycle_is_unwound(
    app: AppModel,
    anchor: Anchor,
    what: Leg,
    targets: Seq<usize>,
)
    requires
        !app.diff,
        app.sections_valid(),
        app.selected <= less_one(app.rows().len() as int),
        app.cursor < app.shown().rows_len(),
        app.jump_at <= app.jumps.len(),
        app.jumps.len() < usize::MAX,
        0 <= app.next_leg(anchor, targets) < targets.len(),
        app.section_lines().0 <= targets[app.next_leg(anchor, targets)] < app.section_lines().1,
    ensures
        stands_on(
            app.cycled(anchor, what, targets),
            targets[app.next_leg(anchor, targets)] as int,
        ),
        app.cycled(anchor, what, targets).history_stepped(false).here() == app.here(),
{
    reveal(AppModel::with_cycle);
    reveal(AppModel::say);
    let line = targets[app.next_leg(anchor, targets)] as int;
    let done = app.cycled(anchor, what, targets);
    lemma_jump_keeps(app, line, done);
    lemma_here_exists(app);
    law_going_back_restores_the_place(done);
}

} // verus!
