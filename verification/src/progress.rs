//! The per-learner progress record and its transitions.
//!
//! A `UserProgress` record holds the owning identity, a completion counter and
//! a level. The counter moves up by exactly one per successful completion and
//! saturates at the maximum representable value instead of wrapping. A
//! completion whose score reaches the achievement threshold yields a one-shot
//! `ModuleCompleted` notification; one below it yields none. Every transition
//! is gated on the signer matching the record's owner.

use vstd::prelude::*;
use crate::identity::Identity;

verus! {

/// The score at or above which a completion counts as an achievement.
pub const ACHIEVEMENT_THRESHOLD: u8 = 80;

/// The largest score a completion may carry.
pub const MAX_SCORE: u8 = 100;

/// The level every record starts at.
pub const INITIAL_LEVEL: u8 = 1;

/// Why an operation was refused. Every error is terminal for the requested
/// operation: the record is left exactly as it was.
#[derive(Clone, Copy, PartialEq, Eq, Structural, Debug)]
pub enum ProgressError {
    /// A record already exists for the identity being initialized.
    AlreadyInitialized,
    /// No record exists for the addressed identity.
    RecordNotFound,
    /// The signer does not match the record's owner.
    Unauthorized,
    /// The score lies outside the range 0 to `MAX_SCORE`.
    InvalidScore,
}

/// The persisted progress record of one learner.
#[derive(Clone, Copy, PartialEq, Eq, Structural, Debug)]
pub struct UserProgress {
    /// The identity entitled to mutate this record; set once, at creation.
    pub owner: Identity,
    /// How many modules were completed, one per successful completion call.
    pub total_modules_completed: u64,
    /// The learner's level; overwritten freely, no progression rule.
    pub current_level: u8,
}

/// The one-shot notification emitted when a completion's score reaches the
/// achievement threshold. Not persisted.
#[derive(PartialEq, Eq, Debug)]
pub struct ModuleCompleted {
    /// The owner of the record the completion was applied to.
    pub user: Identity,
    /// The identifier of the completed module, arbitrary text.
    pub module_id: String,
    /// The score the completion carried.
    pub score: u8,
    /// Seconds since the epoch at the moment of processing, supplied by the
    /// caller's clock.
    pub timestamp: i64,
}

/// The record `initialize_user` creates for `owner`.
pub open spec fn fresh_record(owner: Identity) -> UserProgress {
    UserProgress { owner, total_modules_completed: 0, current_level: INITIAL_LEVEL as u8 }
}

/// The completion counter after one more successful completion: up by one,
/// saturating at the maximum instead of wrapping.
pub open spec fn next_count(t: u64) -> u64 {
    if t == u64::MAX {
        u64::MAX
    } else {
        (t + 1) as u64
    }
}

/// `r` after one successful completion.
pub open spec fn completed_record(r: UserProgress) -> UserProgress {
    UserProgress { total_modules_completed: next_count(r.total_modules_completed), ..r }
}

/// `r` after its level was overwritten with `level`.
pub open spec fn leveled_record(r: UserProgress, level: u8) -> UserProgress {
    UserProgress { current_level: level, ..r }
}

impl UserProgress {
    /// A fresh record owned by `owner`: no completions, level
    /// `INITIAL_LEVEL`.
    pub fn new(owner: Identity) -> (r: UserProgress)
        ensures
            r == fresh_record(owner),
    {
        UserProgress { owner, total_modules_completed: 0, current_level: INITIAL_LEVEL }
    }

    /// Applies one module completion to this record.
    ///
    /// Succeeds exactly when `signer` is the record's owner and `score` is at
    /// most `MAX_SCORE`; then the counter moves up by one (saturating) and
    /// nothing else changes. The result carries a notification exactly when
    /// `score` reaches `ACHIEVEMENT_THRESHOLD`. On any error the record is
    /// unchanged; a signer mismatch is reported before an out-of-range score.
    pub fn record_completion(
        &mut self,
        signer: Identity,
        module_id: String,
        score: u8,
        timestamp: i64,
    ) -> (r: Result<Option<ModuleCompleted>, ProgressError>)
        ensures
            r is Ok <==> (signer == old(self).owner && score <= MAX_SCORE),
            match r {
                Ok(ev) => {
                    &&& *final(self) == completed_record(*old(self))
                    &&& match ev {
                        Some(e) => {
                            &&& score >= ACHIEVEMENT_THRESHOLD
                            &&& e.user == old(self).owner
                            &&& e.module_id@ == module_id@
                            &&& e.score == score
                            &&& e.timestamp == timestamp
                        },
                        None => score < ACHIEVEMENT_THRESHOLD,
                    }
                },
                Err(e) => {
                    &&& *final(self) == *old(self)
                    &&& (e == ProgressError::Unauthorized <==> signer != old(self).owner)
                    &&& (e == ProgressError::InvalidScore <==> (signer == old(self).owner
                        && score > MAX_SCORE))
                },
            },
    {
        if signer != self.owner {
            return Err(ProgressError::Unauthorized);
        }
        if score > MAX_SCORE {
            return Err(ProgressError::InvalidScore);
        }
        if self.total_modules_completed < u64::MAX {
            self.total_modules_completed = self.total_modules_completed + 1;
        }
        if score >= ACHIEVEMENT_THRESHOLD {
            Ok(Some(ModuleCompleted { user: self.owner, module_id, score, timestamp }))
        } else {
            Ok(None)
        }
    }

    /// Overwrites this record's level with `new_level`.
    ///
    /// Succeeds exactly when `signer` is the record's owner; any byte value
    /// is accepted, no progression rule is checked, and the other fields are
    /// untouched. On an error the record is unchanged.
    pub fn set_level(&mut self, signer: Identity, new_level: u8) -> (r: Result<
        (),
        ProgressError,
    >)
        ensures
            r is Ok <==> signer == old(self).owner,
            match r {
                Ok(()) => *final(self) == leveled_record(*old(self), new_level),
                Err(e) => {
                    &&& *final(self) == *old(self)
                    &&& e == ProgressError::Unauthorized
                },
            },
    {
        if signer != self.owner {
            return Err(ProgressError::Unauthorized);
        }
        self.current_level = new_level;
        Ok(())
    }
}

} // verus!
