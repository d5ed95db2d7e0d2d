use vstd::prelude::*;
use crate::actions::{Action, ActorQueue, PendingActions};
use crate::components::Paralyzed;
use crate::events::ActionEvent;
use crate::world::{Entity, EntitySlot, World};

verus! {

/// How many queued actions may still cascade: the count of actions whose
/// rank is positive. Together with the queue length this measure shrinks
/// lexicographically on every resolution step.
pub open spec fn high_count(s: Seq<Action>) -> nat
    decreases s.len(),
{
    if s.len() == 0 {
        0
    } else {
        (if s[0].rank() >= 1 {
            1nat
        } else {
            0nat
        }) + high_count(s.skip(1))
    }
}

pub proof fn lemma_high_count_append(a: Seq<Action>, b: Seq<Action>)
    ensures
        high_count(a + b) == high_count(a) + high_count(b),
    decreases a.len(),
{
    if a.len() == 0 {
        assert(a + b =~= b);
    } else {
        assert((a + b).skip(1) =~= a.skip(1) + b);
        lemma_high_count_append(a.skip(1), b);
    }
}

pub proof fn lemma_high_count_zero(s: Seq<Action>)
    requires
        forall|k: int| 0 <= k < s.len() ==> (#[trigger] s[k]).rank() == 0,
    ensures
        high_count(s) == 0,
    decreases s.len(),
{
    if s.len() > 0 {
        lemma_high_count_zero(s.skip(1));
    }
}

/// One resolution step, as a relation: the head of `q0` executes against
/// `w0`, either succeeding (its follow-ups splice in at the front and its
/// event is emitted) or failing (it is dropped and nothing is emitted).
pub open spec fn step_rel(
    w0: World,
    q0: Seq<Action>,
    w1: World,
    q1: Seq<Action>,
    ev: Option<ActionEvent>,
) -> bool {
    &&& q0.len() > 0
    &&& ({
        let head = q0[0];
        let rest = q0.skip(1);
        ||| (ev == Some(head.spec_event()) && exists|f: Vec<Action>|
            {
                &&& #[trigger] head.apply(w0, w1, Ok(f))
                &&& q1 == f@ + rest
            })
        ||| (ev is None && head.apply(w0, w1, Err(())) && q1 == rest)
    })
}

/// The events of the emitting steps of a resolution pass, in order.
pub open spec fn emitted_events(evs: Seq<Option<ActionEvent>>) -> Seq<ActionEvent>
    decreases evs.len(),
{
    if evs.len() == 0 {
        Seq::empty()
    } else {
        match evs[0] {
            Some(e) => seq![e] + emitted_events(evs.skip(1)),
            None => emitted_events(evs.skip(1)),
        }
    }
}

pub proof fn lemma_emitted_events_push(evs: Seq<Option<ActionEvent>>, o: Option<ActionEvent>)
    ensures
        emitted_events(evs.push(o)) == emitted_events(evs) + (match o {
            Some(e) => seq![e],
            None => Seq::<ActionEvent>::empty(),
        }),
    decreases evs.len(),
{
    if evs.len() == 0 {
        reveal_with_fuel(emitted_events, 3);
        assert(evs.push(o).skip(1) =~= Seq::<Option<ActionEvent>>::empty());
        match o {
            Some(e) => {
                assert(emitted_events(evs.push(o)) =~= emitted_events(evs) + seq![e]);
            },
            None => {
                assert(emitted_events(evs.push(o)) =~= emitted_events(
                    evs,
                ) + Seq::<ActionEvent>::empty());
            },
        }
    } else {
        assert(evs.push(o).skip(1) =~= evs.skip(1).push(o));
        lemma_emitted_events_push(evs.skip(1), o);
        match evs[0] {
            Some(e) => {
                assert(emitted_events(evs.push(o)) =~= emitted_events(evs) + (match o {
                    Some(e2) => seq![e2],
                    None => Seq::<ActionEvent>::empty(),
                }));
            },
            None => {},
        }
    }
}

/// One resolution step: pop the head action, execute it, and on success
/// splice its follow-ups in at the front of the queue, handing back the
/// head's event; an expected failure drops the head and hands back
/// nothing. An empty queue is left alone.
pub fn process_next(world: &mut World, pending: &mut PendingActions) -> (ev: Option<ActionEvent>)
    requires
        old(world).wf(),
        old(pending).all_wf(),
    ensures
        final(world).wf(),
        final(pending).all_wf(),
        old(pending).0@.len() == 0 ==> *final(world) == *old(world) && *final(pending) == *old(
            pending,
        ) && ev is None,
        old(pending).0@.len() > 0 ==> ({
            let head = old(pending).0@[0];
            let rest = old(pending).0@.skip(1);
            ||| (ev == Some(head.spec_event()) && exists|f: Vec<Action>|
                {
                    &&& #[trigger] head.apply(*old(world), *final(world), Ok(f))
                    &&& final(pending).0@ == f@ + rest
                    &&& forall|k: int|
                        0 <= k < f@.len() ==> (#[trigger] f@[k]).wf() && f@[k].rank() == 0
                    &&& head.rank() == 0 ==> f@.len() == 0
                })
            ||| (ev is None && head.apply(*old(world), *final(world), Err(()))
                && final(pending).0@ == rest)
        }),
{
    if pending.0.len() == 0 {
        return None;
    }
    let a = pending.0.remove(0);
    proof {
        assert(pending.0@ =~= old(pending).0@.skip(1));
    }
    match a.execute(world) {
        Ok(f) => {
            let ghost fview = f@;
            let mut spliced = f;
            spliced.append(&mut pending.0);
            pending.0 = spliced;
            proof {
                assert(final(pending).0@ == fview + old(pending).0@.skip(1));
                assert forall|k: int|
                    0 <= k < pending.0@.len() implies (#[trigger] pending.0@[k]).wf() by {
                    if k < fview.len() {
                        assert(pending.0@[k] == fview[k]);
                    } else {
                        assert(pending.0@[k] == old(pending).0@.skip(1)[k - fview.len() as int]);
                        assert(old(pending).0@[k - fview.len() as int + 1].wf());
                    }
                }
            }
            Some(a.event())
        },
        Err(_) => None,
    }
}

/// `states` and `emitted` record a complete resolution pass from
/// `(w0, q0)` to `(w1, q1)`: every adjacent pair of states is one
/// resolution step, and `events` holds exactly the emitted events, in
/// resolution order.
pub open spec fn resolution_trace_ok(
    w0: World,
    q0: Seq<Action>,
    w1: World,
    q1: Seq<Action>,
    events: Seq<ActionEvent>,
    states: Seq<(World, Seq<Action>)>,
    emitted: Seq<Option<ActionEvent>>,
) -> bool {
    &&& states.len() == emitted.len() + 1
    &&& states[0] == (w0, q0)
    &&& states[states.len() - 1] == (w1, q1)
    &&& forall|i: int|
        0 <= i < emitted.len() ==> #[trigger] step_rel(
            states[i].0,
            states[i].1,
            states[i + 1].0,
            states[i + 1].1,
            emitted[i],
        )
    &&& events == emitted_events(emitted)
}

/// Drain the pending queue to empty, executing every action and the
/// cascades it produces, collecting the events of the successful
/// executions in resolution order: some sequence of resolution steps
/// leads from the starting store and queue to the final store and the
/// empty queue, emitting exactly the returned events.
pub fn drain(world: &mut World, pending: &mut PendingActions) -> (events: Vec<ActionEvent>)
    requires
        old(world).wf(),
        old(pending).all_wf(),
    ensures
        final(world).wf(),
        final(pending).0@.len() == 0,
        exists|states: Seq<(World, Seq<Action>)>, emitted: Seq<Option<ActionEvent>>|
            #[trigger] resolution_trace_ok(
                *old(world),
                old(pending).0@,
                *final(world),
                final(pending).0@,
                events@,
                states,
                emitted,
            ),
{
    let mut events: Vec<ActionEvent> = Vec::new();
    let ghost mut states: Seq<(World, Seq<Action>)> = seq![(*world, pending.0@)];
    let ghost mut emitted: Seq<Option<ActionEvent>> = Seq::empty();
    proof {
        assert(events@ =~= emitted_events(emitted));
    }
    while pending.0.len() > 0
        invariant
            world.wf(),
            pending.all_wf(),
            resolution_trace_ok(
                *old(world),
                old(pending).0@,
                *world,
                pending.0@,
                events@,
                states,
                emitted,
            ),
        decreases high_count(pending.0@), pending.0@.len(),
    {
        let ghost q0 = pending.0@;
        let ghost w0 = *world;
        let ghost states0 = states;
        let ghost emitted0 = emitted;
        let ghost events0 = events@;
        let ev = process_next(world, pending);
        if let Some(e) = ev {
            events.push(e);
        }
        proof {
            let head = q0[0];
            let rest = q0.skip(1);
            assert(high_count(q0) == (if head.rank() >= 1 {
                1nat
            } else {
                0nat
            }) + high_count(rest));
            if ev is Some {
                let f = choose|f: Vec<Action>|
                    {
                        &&& #[trigger] head.apply(w0, *world, Ok(f))
                        &&& pending.0@ == f@ + rest
                        &&& forall|k: int|
                            0 <= k < f@.len() ==> (#[trigger] f@[k]).wf() && f@[k].rank() == 0
                        &&& head.rank() == 0 ==> f@.len() == 0
                    };
                lemma_high_count_zero(f@);
                lemma_high_count_append(f@, rest);
                if head.rank() >= 1 {
                    assert(high_count(pending.0@) < high_count(q0));
                } else {
                    assert(f@.len() == 0);
                    assert(pending.0@ =~= rest);
                }
            } else {
                assert(pending.0@ == rest);
            }
            assert(high_count(pending.0@) <= high_count(q0));
            // extend the recorded trace by this step
            assert(step_rel(w0, q0, *world, pending.0@, ev));
            lemma_emitted_events_push(emitted0, ev);
            emitted = emitted0.push(ev);
            states = states0.push((*world, pending.0@));
            assert(states[0] == states0[0]);
            assert forall|i: int|
                0 <= i < emitted.len() implies #[trigger] step_rel(
                states[i].0,
                states[i].1,
                states[i + 1].0,
                states[i + 1].1,
                emitted[i],
            ) by {
                if i < emitted0.len() {
                    assert(states[i] == states0[i] && states[i + 1] == states0[i + 1]
                        && emitted[i] == emitted0[i]);
                    assert(step_rel(
                        states0[i].0,
                        states0[i].1,
                        states0[i + 1].0,
                        states0[i + 1].1,
                        emitted0[i],
                    ));
                } else {
                    assert(states[i] == (w0, q0) && states[i + 1] == (*world, pending.0@)
                        && emitted[i] == ev);
                }
            }
            match ev {
                Some(e) => {
                    assert(events@ =~= events0 + seq![e]);
                },
                None => {
                    assert(events@ =~= events0 + Seq::<ActionEvent>::empty());
                },
            }
            assert(events@ == emitted_events(emitted));
        }
    }
    proof {
        assert(resolution_trace_ok(
            *old(world),
            old(pending).0@,
            *world,
            pending.0@,
            events@,
            states,
            emitted,
        ));
    }
    events
}

/// The front entity may act: it is alive and not paralyzed.
pub fn can_act(world: &World, e: Entity) -> (b: bool)
    ensures
        b == (world.is_alive(e.0 as int) && world.paralyzed_of(e.0 as int) is None),
{
    world.is_entity_alive(e) && world.get_paralyzed(e).is_none()
}

/// Rotate the turn order once the current turn has resolved: the front
/// entity goes to the back, a despawned front entity drops out, and a
/// paralysis status on the rotated entity ticks down by one, disappearing
/// when it expires.
pub fn rotate_turn(world: &mut World, queue: &mut ActorQueue)
    requires
        old(world).wf(),
    ensures
        final(world).wf(),
        old(queue).0@.len() == 0 ==> *final(world) == *old(world) && *final(queue) == *old(queue),
        old(queue).0@.len() > 0 ==> ({
            let e = old(queue).0@[0];
            let rest = old(queue).0@.skip(1);
            if !old(world).is_alive(e.0 as int) {
                final(queue).0@ == rest && *final(world) == *old(world)
            } else {
                final(queue).0@ == rest.push(e) && (match old(world).paralyzed_of(e.0 as int) {
                    Some(p) => {
                        if p.0 > 1 {
                            final(world).slots@ == old(world).slots@.update(
                                e.0 as int,
                                (EntitySlot {
                                    paralyzed: Some(Paralyzed((p.0 - 1) as u32)),
                                    ..old(world).slot(e.0 as int)
                                }),
                            )
                        } else {
                            final(world).slots@ == old(world).slots@.update(
                                e.0 as int,
                                (EntitySlot { paralyzed: None, ..old(world).slot(e.0 as int) }),
                            )
                        }
                    },
                    None => *final(world) == *old(world),
                })
            }
        }),
{
    if queue.0.len() == 0 {
        return ;
    }
    let e = queue.0.remove(0);
    proof {
        assert(queue.0@ =~= old(queue).0@.skip(1));
    }
    if !world.is_entity_alive(e) {
        return ;
    }
    match world.get_paralyzed(e) {
        Some(p) => {
            if p.0 > 1 {
                let _updated = world.insert_paralyzed(e, Paralyzed(p.0 - 1));
            } else {
                world.remove_paralyzed(e);
            }
        },
        None => {},
    }
    queue.0.push(e);
}

} // verus!
