use vstd::prelude::*;

verus! {

/// What the host observed of a registration array before tearing its library down.
pub struct ArrayLayout {
    /// For each slot of the array, whether it holds a non-null registration.
    /// Empty when the array pointer, its count or its registrations pointer is null.
    pub registrations: Vec<bool>,
    /// `None` when the factories pointer is null (an array the host synthesized);
    /// otherwise, for each slot, whether it holds a non-null factory.
    pub factories: Option<Vec<bool>>,
}

/// Which optional entry points the library exports for the trait it serves.
#[derive(Debug, Clone, Copy, PartialEq, Eq, Structural)]
pub struct Exports {
    pub unregister_all: bool,
    pub unregister: bool,
    pub unmaker_counter: bool,
}

/// One action of a teardown, in the order the host must perform them.
#[derive(Debug, Clone, Copy, PartialEq, Eq, Structural)]
pub enum TeardownStep {
    /// Hand the whole array to the plugin's aggregated releaser.
    UnregisterAll,
    /// Call the unmaker of the factory in slot `i` on the registration in slot `i`.
    Unmaker(usize),
    /// Call the single-registration releaser on the registration in slot `i`.
    Unregister(usize),
    /// Read the unmaker counter while the library is still open.
    ReadCounter,
    /// Free the pointer array and the array record that the host allocated.
    FreeHostArray,
}

impl ArrayLayout {
    pub open spec fn wf(&self) -> bool {
        match self.factories {
            Some(f) => f@.len() == self.registrations@.len(),
            None => true,
        }
    }

    pub open spec fn factories_view(&self) -> Option<Seq<bool>> {
        match self.factories {
            Some(f) => Some(f@),
            None => None,
        }
    }
}

/// The releasing call for slot `i`, if any.
pub open spec fn slot_step(
    regs: Seq<bool>,
    facs: Option<Seq<bool>>,
    unregister: bool,
    i: int,
) -> Seq<TeardownStep> {
    if !regs[i] {
        seq![]
    } else {
        match facs {
            Some(f) if f[i] => seq![TeardownStep::Unmaker(i as usize)],
            _ => if unregister {
                seq![TeardownStep::Unregister(i as usize)]
            } else {
                seq![]
            },
        }
    }
}

/// The releasing calls for slots `0..n`, in slot order.
pub open spec fn slot_steps(
    regs: Seq<bool>,
    facs: Option<Seq<bool>>,
    unregister: bool,
    n: int,
) -> Seq<TeardownStep>
    decreases n,
{
    if n <= 0 {
        seq![]
    } else {
        slot_steps(regs, facs, unregister, n - 1) + slot_step(regs, facs, unregister, n - 1)
    }
}

/// The teardown of a library: release every registration (through the aggregated
/// releaser when exported, else slot by slot), read the counter, and for a
/// host-synthesized array free it. An empty array needs no action.
pub open spec fn teardown_plan(
    regs: Seq<bool>,
    facs: Option<Seq<bool>>,
    ex: Exports,
) -> Seq<TeardownStep> {
    if regs.len() == 0 {
        seq![]
    } else {
        let release = if ex.unregister_all {
            seq![TeardownStep::UnregisterAll]
        } else {
            slot_steps(regs, facs, ex.unregister, regs.len() as int)
        };
        let counter = if ex.unmaker_counter {
            seq![TeardownStep::ReadCounter]
        } else {
            seq![]
        };
        let free = if facs is None {
            seq![TeardownStep::FreeHostArray]
        } else {
            seq![]
        };
        release + counter + free
    }
}

/// Whether a step releases the registration in slot `i`.
pub open spec fn releases(s: TeardownStep, i: int) -> bool {
    match s {
        TeardownStep::Unmaker(j) => j == i,
        TeardownStep::Unregister(j) => j == i,
        _ => false,
    }
}

/// How many steps of a plan release the registration in slot `i`.
pub open spec fn release_count(plan: Seq<TeardownStep>, i: int) -> nat {
    plan.filter(|s: TeardownStep| releases(s, i)).len()
}

/// Whether slot `i` can be released one by one: it holds a factory, or the
/// single-registration releaser is exported.
pub open spec fn has_releaser(facs: Option<Seq<bool>>, unregister: bool, i: int) -> bool {
    unregister || match facs {
        Some(f) => f[i],
        None => false,
    }
}

proof fn lemma_slot_steps_release_count(
    regs: Seq<bool>,
    facs: Option<Seq<bool>>,
    unregister: bool,
    n: int,
    i: int,
)
    requires
        0 <= n <= regs.len() <= usize::MAX,
        0 <= i < regs.len(),
        regs[i] ==> has_releaser(facs, unregister, i),
    ensures
        release_count(slot_steps(regs, facs, unregister, n), i) == (if i < n && regs[i] {
            1nat
        } else {
            0nat
        }),
    decreases n,
{
    let pred = |s: TeardownStep| releases(s, i);
    if n > 0 {
        lemma_slot_steps_release_count(regs, facs, unregister, n - 1, i);
        let a = slot_steps(regs, facs, unregister, n - 1);
        let b = slot_step(regs, facs, unregister, n - 1);
        Seq::filter_distributes_over_add(a, b, pred);
        assert(b.filter(pred).len() == (if i == n - 1 && regs[i] {
            1nat
        } else {
            0nat
        })) by {
            reveal_with_fuel(Seq::filter, 2);
            if b.len() == 1 {
                assert(b.drop_last() =~= Seq::<TeardownStep>::empty());
                assert(b.drop_last().filter(pred) =~= Seq::<TeardownStep>::empty());
                assert(pred(b.last()) == (i == n - 1));
            } else {
                assert(b =~= Seq::<TeardownStep>::empty());
            }
        }
    } else {
        assert(slot_steps(regs, facs, unregister, n).filter(pred) =~= seq![]);
    }
}

/// Load/unload symmetry: when the plugin releases its registrations one by one
/// and every occupied slot has a releaser, the teardown releases each occupied
/// slot exactly once and no empty slot, so the unmaker counter grows by the
/// number of registrations in the array.
pub proof fn lemma_teardown_releases_each_once(layout: ArrayLayout, exports: Exports)
    requires
        layout.wf(),
        layout.registrations@.len() <= usize::MAX,
        !exports.unregister_all,
        forall|i: int|
            0 <= i < layout.registrations@.len() && #[trigger] layout.registrations@[i]
                ==> has_releaser(layout.factories_view(), exports.unregister, i),
    ensures
        forall|i: int|
            0 <= i < layout.registrations@.len() ==> #[trigger] release_count(
                teardown_plan(layout.registrations@, layout.factories_view(), exports),
                i,
            ) == (if layout.registrations@[i] {
                1nat
            } else {
                0nat
            }),
{
    let regs = layout.registrations@;
    let facs = layout.factories_view();
    assert forall|i: int| 0 <= i < regs.len() implies #[trigger] release_count(
        teardown_plan(regs, facs, exports),
        i,
    ) == (if regs[i] {
        1nat
    } else {
        0nat
    }) by {
        let pred = |s: TeardownStep| releases(s, i);
        let rel = slot_steps(regs, facs, exports.unregister, regs.len() as int);
        let counter = if exports.unmaker_counter {
            seq![TeardownStep::ReadCounter]
        } else {
            seq![]
        };
        let free = if facs is None {
            seq![TeardownStep::FreeHostArray]
        } else {
            seq![]
        };
        lemma_slot_steps_release_count(regs, facs, exports.unregister, regs.len() as int, i);
        Seq::filter_distributes_over_add(rel, counter, pred);
        Seq::filter_distributes_over_add(rel + counter, free, pred);
        assert(counter.filter(pred).len() == 0) by {
            reveal_with_fuel(Seq::filter, 2);
        }
        assert(free.filter(pred).len() == 0) by {
            reveal_with_fuel(Seq::filter, 2);
        }
    }
}

/// Plans the teardown of a library from what was observed of its array and exports.
pub fn plan_teardown(layout: &ArrayLayout, exports: Exports) -> (r: Vec<TeardownStep>)
    requires
        layout.wf(),
    ensures
        r@ == teardown_plan(layout.registrations@, layout.factories_view(), exports),
{
    let ghost regs = layout.registrations@;
    let ghost facs = layout.factories_view();
    let n = layout.registrations.len();
    let mut out: Vec<TeardownStep> = Vec::new();
    if n == 0 {
        return out;
    }
    if exports.unregister_all {
        out.push(TeardownStep::UnregisterAll);
    } else {
        let mut i: usize = 0;
        while i < n
            invariant
                n == regs.len(),
                regs == layout.registrations@,
                facs == layout.factories_view(),
                layout.wf(),
                i <= n,
                out@ == slot_steps(regs, facs, exports.unregister, i as int),
            decreases n - i,
        {
            if layout.registrations[i] {
                let by_factory = match &layout.factories {
                    Some(f) => f[i],
                    None => false,
                };
                if by_factory {
                    out.push(TeardownStep::Unmaker(i));
                } else if exports.unregister {
                    out.push(TeardownStep::Unregister(i));
                }
            }
            assert(out@ == slot_steps(regs, facs, exports.unregister, i + 1));
            i = i + 1;
        }
    }
    if exports.unmaker_counter {
        out.push(TeardownStep::ReadCounter);
    }
    if layout.factories.is_none() {
        out.push(TeardownStep::FreeHostArray);
    }
    out
}

} // verus!
