//! An infantryman's terminal lifetime, apart from its sprite progress: the
//! death recipe a fatal hit selects, the raw kill handoffs, the terminal
//! logic visit that ends in the removal, and the dead body its completed
//! death sequence leaves.
use vstd::prelude::*;

verus! {

/// The infantry death anim number a `JumpJet=` infantryman always uses.
pub const INFANTRY_EXPLODE_INF_DEATH: u8 = 3;

/// The two death sequences an infantryman can play itself.
#[derive(Clone, Copy, Debug, PartialEq, Eq)]
pub enum InfantryDeathSequence {
    Die1,
    Die2,
}

pub open spec fn sequence_for_spec(inf_death: u8) -> Option<InfantryDeathSequence> {
    if inf_death == 1 {
        Some(InfantryDeathSequence::Die1)
    } else if inf_death == 2 {
        Some(InfantryDeathSequence::Die2)
    } else {
        None
    }
}

impl InfantryDeathSequence {
    /// The death sequence of an `InfDeath=` number.
    pub fn for_inf_death(inf_death: u8) -> (r: Option<InfantryDeathSequence>)
        ensures
            r == sequence_for_spec(inf_death),
    {
        if inf_death == 1 {
            Some(InfantryDeathSequence::Die1)
        } else if inf_death == 2 {
            Some(InfantryDeathSequence::Die2)
        } else {
            None
        }
    }
}

/// What the infantryman's terminal logic visit does.
#[derive(Clone, Copy, Debug, PartialEq, Eq)]
pub enum InfantryTerminal {
    RetireNextVisit,
    Sequence(InfantryDeathSequence),
    /// The receiver's consuming consequences own the cleanup.
    AwaitingConsequences,
}

/// The concrete death recipe of a fatal hit.
#[derive(Clone, Copy, Debug, PartialEq, Eq)]
pub enum DeathRecipe {
    Sequence(InfantryDeathSequence),
    ExternalAnim(u8),
    Cleanup,
    /// A crashable jumpjet infantryman whose crash was accepted: it stays,
    /// alive at zero health, and falls.
    CrashExplode,
}

/// What the receiver reads of the dying infantryman.
#[derive(Clone, Copy, Debug, PartialEq, Eq)]
pub struct DyingInfantry {
    pub jumpjet: bool,
    pub crashable: bool,
    /// The crash the locomotor was asked for was accepted.
    pub crash_accepted: bool,
    pub has_animation: bool,
    /// The warhead's `InfDeath=` number.
    pub inf_death: u8,
    /// That number builds an external death anim.
    pub inf_death_spawns_anim: bool,
}

/// The recipe: a jumpjet type explodes (crashing when it may and the crash
/// is accepted); an infantryman without art is cleaned up; else its own
/// death sequence, an external death anim, or the cleanup.
pub open spec fn recipe_spec(d: DyingInfantry) -> DeathRecipe {
    if d.jumpjet {
        if d.crashable && d.crash_accepted {
            DeathRecipe::CrashExplode
        } else {
            DeathRecipe::ExternalAnim(INFANTRY_EXPLODE_INF_DEATH)
        }
    } else if !d.has_animation {
        DeathRecipe::Cleanup
    } else {
        match sequence_for_spec(d.inf_death) {
            Some(s) => DeathRecipe::Sequence(s),
            None => if d.inf_death_spawns_anim {
                DeathRecipe::ExternalAnim(d.inf_death)
            } else {
                DeathRecipe::Cleanup
            },
        }
    }
}

/// The receiver's decision and the state it leaves.
#[derive(Clone, Copy, Debug, PartialEq, Eq)]
pub struct ReceiverDeath {
    pub recipe: DeathRecipe,
    /// The infantryman is queued for an immediate removal now.
    pub immediate_uninit: bool,
    /// The dying flag and the awaiting terminal are set now.
    pub awaiting_consequences: bool,
}

pub open spec fn receiver_death_spec(d: DyingInfantry) -> ReceiverDeath {
    let r = recipe_spec(d);
    ReceiverDeath {
        recipe: r,
        immediate_uninit: r == DeathRecipe::Cleanup,
        awaiting_consequences: !(r is Sequence || r is CrashExplode),
    }
}

/// Selects the death recipe after any nested death-weapon damage.
pub fn begin_infantry_receiver_death(d: &DyingInfantry) -> (r: ReceiverDeath)
    ensures
        r == receiver_death_spec(*d),
{
    let recipe = if d.jumpjet {
        if d.crashable && d.crash_accepted {
            DeathRecipe::CrashExplode
        } else {
            DeathRecipe::ExternalAnim(INFANTRY_EXPLODE_INF_DEATH)
        }
    } else if !d.has_animation {
        DeathRecipe::Cleanup
    } else {
        match InfantryDeathSequence::for_inf_death(d.inf_death) {
            Some(s) => DeathRecipe::Sequence(s),
            None => if d.inf_death_spawns_anim {
                DeathRecipe::ExternalAnim(d.inf_death)
            } else {
                DeathRecipe::Cleanup
            },
        }
    };
    let cleanup = match recipe {
        DeathRecipe::Cleanup => true,
        _ => false,
    };
    let awaiting = match recipe {
        DeathRecipe::Sequence(_) => false,
        DeathRecipe::CrashExplode => false,
        _ => true,
    };
    ReceiverDeath { recipe, immediate_uninit: cleanup, awaiting_consequences: awaiting }
}

/// The consuming postlude: the death anim it builds, and whether an
/// external anim queues the removal.
pub open spec fn postlude_spec(r: DeathRecipe) -> (Option<u8>, bool) {
    match r {
        DeathRecipe::ExternalAnim(n) => (Some(n), true),
        DeathRecipe::CrashExplode => (Some(INFANTRY_EXPLODE_INF_DEATH), false),
        _ => (None, false),
    }
}

pub fn commit_postlude(r: DeathRecipe) -> (out: (Option<u8>, bool))
    ensures
        out == postlude_spec(r),
{
    match r {
        DeathRecipe::ExternalAnim(n) => (Some(n), true),
        DeathRecipe::CrashExplode => (Some(INFANTRY_EXPLODE_INF_DEATH), false),
        _ => (None, false),
    }
}

/// What the raw kill handoff reads and writes of an infantryman.
#[derive(Clone, Copy, Debug, PartialEq, Eq)]
pub struct RawVictim {
    pub is_infantry: bool,
    pub health: i32,
    pub dying: bool,
    pub alive: bool,
    pub has_animation: bool,
    pub terminal: Option<InfantryTerminal>,
}

/// The raw kill handoff: an infantryman gets zero health and the dying
/// flag; a live one then plays the given death sequence when it has art
/// for it, else retires at its next logic visit. Other categories are
/// refused.
pub fn begin_raw_infantry_death(v: &mut RawVictim, inf_death: Option<u8>) -> (ok: bool)
    ensures
        ok == old(v).is_infantry,
        !ok ==> *final(v) == *old(v),
        ok ==> {
            &&& final(v).health == 0 && final(v).dying
            &&& final(v).is_infantry == old(v).is_infantry && final(v).alive == old(v).alive && final(v).has_animation == old(v).has_animation
            &&& !old(v).alive ==> final(v).terminal == old(v).terminal
            &&& old(v).alive ==> final(v).terminal == Some(match (if old(v).has_animation { match inf_death { Some(n) => sequence_for_spec(n), None => None } } else { None }) {
                Some(s) => InfantryTerminal::Sequence(s),
                None => InfantryTerminal::RetireNextVisit,
            })
        },
{
    if !v.is_infantry {
        return false;
    }
    v.health = 0;
    v.dying = true;
    if !v.alive {
        return true;
    }
    let sequence = if v.has_animation {
        match inf_death {
            Some(n) => InfantryDeathSequence::for_inf_death(n),
            None => None,
        }
    } else {
        None
    };
    v.terminal = Some(
        match sequence {
            Some(s) => InfantryTerminal::Sequence(s),
            None => InfantryTerminal::RetireNextVisit,
        },
    );
    true
}

/// An infantryman starts a death sequence: it is dying, and a live one's
/// terminal plays that sequence. Its animation restarts on the sequence
/// unless it already plays it (`playing`: the death sequence its current
/// animation plays, if any); the answer says whether it restarts.
pub fn begin_infantry_death_sequence(
    v: &mut RawVictim,
    sequence: InfantryDeathSequence,
    playing: Option<InfantryDeathSequence>,
) -> (restart_animation: bool)
    ensures
        *final(v) == (RawVictim {
            dying: true,
            terminal: if old(v).alive {
                Some(InfantryTerminal::Sequence(sequence))
            } else {
                old(v).terminal
            },
            ..*old(v)
        }),
        restart_animation == (playing != Some(sequence)),
{
    v.dying = true;
    if v.alive {
        v.terminal = Some(InfantryTerminal::Sequence(sequence));
    }
    match playing {
        Some(p) => match (p, sequence) {
            (InfantryDeathSequence::Die1, InfantryDeathSequence::Die1) => false,
            (InfantryDeathSequence::Die2, InfantryDeathSequence::Die2) => false,
            _ => true,
        },
        None => true,
    }
}

/// A mutation victim is handed to the raw kill only while it is a living,
/// not yet dying infantryman.
pub fn mark_raw_mutation_victim(v: &mut RawVictim) -> (ok: bool)
    ensures
        ok == (old(v).is_infantry && !old(v).dying && old(v).health != 0),
        !ok ==> *final(v) == *old(v),
        ok ==> final(v).health == 0 && final(v).dying,
{
    if !v.is_infantry || v.dying || v.health == 0 {
        return false;
    }
    begin_raw_infantry_death(v, None)
}

/// The work of one terminal logic visit.
#[derive(Clone, Copy, Debug, PartialEq, Eq)]
pub enum TerminalAction {
    LeaveDeadBody,
    ReleaseMoveSound,
    Uninit,
}

/// The terminal visit: nothing to do without a terminal (not handled); the
/// awaiting terminal waits; a retiring one is removed; a death sequence
/// without rules waits, and with rules it leaves its dead body and is
/// removed once the sequence finished.
pub open spec fn terminal_visit_spec(terminal: Option<InfantryTerminal>, has_rules: bool, sequence_finished: bool) -> (bool, Seq<TerminalAction>) {
    match terminal {
        None => (false, Seq::empty()),
        Some(InfantryTerminal::AwaitingConsequences) => (true, Seq::empty()),
        Some(InfantryTerminal::RetireNextVisit) => (true, seq![TerminalAction::ReleaseMoveSound, TerminalAction::Uninit]),
        Some(InfantryTerminal::Sequence(_)) => if !has_rules || !sequence_finished {
            (true, Seq::empty())
        } else {
            (true, seq![TerminalAction::LeaveDeadBody, TerminalAction::ReleaseMoveSound, TerminalAction::Uninit])
        },
    }
}

pub fn visit_infantry_terminal(terminal: Option<InfantryTerminal>, has_rules: bool, sequence_finished: bool) -> (r: (bool, Vec<TerminalAction>))
    ensures
        (r.0, r.1@) == terminal_visit_spec(terminal, has_rules, sequence_finished),
{
    match terminal {
        None => (false, Vec::new()),
        Some(InfantryTerminal::AwaitingConsequences) => (true, Vec::new()),
        Some(InfantryTerminal::RetireNextVisit) => {
            let v = vec![TerminalAction::ReleaseMoveSound, TerminalAction::Uninit];
            assert(v@ =~= seq![TerminalAction::ReleaseMoveSound, TerminalAction::Uninit]);
            (true, v)
        },
        Some(InfantryTerminal::Sequence(_)) => {
            if !has_rules || !sequence_finished {
                (true, Vec::new())
            } else {
                let v = vec![TerminalAction::LeaveDeadBody, TerminalAction::ReleaseMoveSound, TerminalAction::Uninit];
                assert(v@ =~= seq![TerminalAction::LeaveDeadBody, TerminalAction::ReleaseMoveSound, TerminalAction::Uninit]);
                (true, v)
            }
        },
    }
}

/// Which list a dead body comes from.
#[derive(Clone, Copy, Debug, PartialEq, Eq)]
pub enum BodyList {
    Type,
    General,
}

/// The list a completed death sequence picks its dead body from: the
/// type's own `DeadBodies=`, else the general one unless the type is not
/// human; none when that list is empty.
pub open spec fn body_list_spec(type_count: usize, general_count: usize, not_human: bool) -> Option<(BodyList, usize)> {
    if type_count > 0 {
        Some((BodyList::Type, type_count))
    } else if !not_human && general_count > 0 {
        Some((BodyList::General, general_count))
    } else {
        None
    }
}

pub fn dead_body_list(type_count: usize, general_count: usize, not_human: bool) -> (r: Option<(BodyList, usize)>)
    ensures
        r == body_list_spec(type_count, general_count, not_human),
{
    if type_count > 0 {
        Some((BodyList::Type, type_count))
    } else if !not_human && general_count > 0 {
        Some((BodyList::General, general_count))
    } else {
        None
    }
}

/// The body one random value picks from a list of `count`.
pub fn dead_body_index(random: u32, count: usize) -> (i: usize)
    requires
        count > 0,
    ensures
        i == random as int % count as int,
        i < count,
{
    (random as u64 % count as u64) as usize
}

} // verus!
