//! Self-update decisions: whether the running manager binary should be
//! replaced by the latest released one, and which storage actions that
//! entails.
//!
//! Downloading the release and swapping the binary image are I/O and happen
//! outside; the decision of whether they happen at all is verified here.

use vstd::prelude::*;

use crate::version::{parsed_version, semver_parse, version_lt, Version};

verus! {

/// The self-update operation's flags.
#[derive(Clone, Copy, Debug, PartialEq, Eq, Structural)]
pub struct SelfUpdateSubcommand {
    /// Replace the binary even when the latest version is already running.
    pub force: bool,
}

/// Outcome of comparing the running version against the latest release.
#[derive(Clone, Copy, Debug, PartialEq, Eq, Structural)]
pub enum UpdateDecision {
    /// Nothing newer exists and no replacement was forced: leave the
    /// binary and every link untouched.
    UpToDate,
    /// Replace the running binary and regenerate all links.
    Update,
}

/// Why a self-update run failed before any network activity.
#[derive(Clone, Copy, Debug, PartialEq, Eq, Structural)]
pub enum UpdateError {
    /// The running binary's own version text did not parse.
    InvalidCurrentVersion,
}

/// The storage actions a decision entails, in order.
#[derive(Clone, Copy, Debug, PartialEq, Eq, Structural)]
pub enum UpdateAction {
    /// Replace the running binary image, write-temp-then-atomic-rename.
    ReplaceSelf,
    /// Regenerate every known alias link.
    RecreateLinks,
}

impl SelfUpdateSubcommand {
    /// Decides whether to update: only when the latest release is strictly
    /// newer than the running version, or when forced. When the latest
    /// equals the running version and no force was requested, the decision
    /// is a no-op.
    pub fn decide(&self, current: Version, latest: Version) -> (d: UpdateDecision)
        ensures
            (d == UpdateDecision::Update) <==> (version_lt(current, latest) || self.force),
            latest == current && !self.force ==> d == UpdateDecision::UpToDate,
    {
        if current.is_older_than(&latest) || self.force {
            UpdateDecision::Update
        } else {
            UpdateDecision::UpToDate
        }
    }

    /// Decides from the running binary's version text: parses it, then
    /// compares as [`Self::decide`] does. Ill-formed version text aborts
    /// before any network activity, with an error naming the cause.
    pub fn decide_from_text(&self, current_text: &str, latest: Version) -> (r: Result<
        UpdateDecision,
        UpdateError,
    >)
        ensures
            parsed_version(current_text@) is None ==> r == Err::<UpdateDecision, UpdateError>(
                UpdateError::InvalidCurrentVersion,
            ),
            parsed_version(current_text@) matches Some(c) ==> r == Ok::<
                UpdateDecision,
                UpdateError,
            >(
                if version_lt(c, latest) || self.force {
                    UpdateDecision::Update
                } else {
                    UpdateDecision::UpToDate
                },
            ),
    {
        match semver_parse(current_text) {
            None => Err(UpdateError::InvalidCurrentVersion),
            Some(current) => Ok(self.decide(current, latest)),
        }
    }
}

/// The actions a decision entails: an update replaces the binary and then
/// regenerates the links; a no-op decision touches nothing — no
/// replacement, no relink.
pub fn actions_for(d: UpdateDecision) -> (r: Vec<UpdateAction>)
    ensures
        d == UpdateDecision::UpToDate ==> r@ == Seq::<UpdateAction>::empty(),
        d == UpdateDecision::Update ==> r@ == seq![
            UpdateAction::ReplaceSelf,
            UpdateAction::RecreateLinks,
        ],
{
    let mut r: Vec<UpdateAction> = Vec::new();
    match d {
        UpdateDecision::UpToDate => {
            proof {
                assert(r@ =~= Seq::<UpdateAction>::empty());
            }
        },
        UpdateDecision::Update => {
            r.push(UpdateAction::ReplaceSelf);
            r.push(UpdateAction::RecreateLinks);
            proof {
                assert(r@ =~= seq![UpdateAction::ReplaceSelf, UpdateAction::RecreateLinks]);
            }
        },
    }
    r
}

} // verus!
