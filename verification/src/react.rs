//! Users' reactions to a page: an upvote raises the page's rank by one, a
//! downvote lowers it by one, and ranks stay between -10 and 10.

use vstd::prelude::*;
use crate::text::owned;

verus! {

/// How a user reacted to a page.
#[derive(Debug, Clone, Copy, PartialEq, Eq, Structural)]
pub enum ReactType {
    Upvote,
    Downvote,
}

/// Why a reaction changed no rank.
#[derive(Debug, Clone)]
pub enum ReactError {
    InvalidArgument { mes: String },
    RankNotUpdated { mes: String },
    GenericError,
    NoWebsiteWithThatId,
}

impl ReactError {
    /// The text that describes the error.
    pub fn message(&self) -> (m: String)
        ensures
            match self {
                ReactError::InvalidArgument { mes } => m@ == mes@,
                ReactError::RankNotUpdated { mes } => m@ == mes@,
                ReactError::GenericError => m@ == "An error occured in user_react()"@,
                ReactError::NoWebsiteWithThatId => m@ == "No website with the provided id exists in solr."@,
            },
    {
        match self {
            ReactError::InvalidArgument { mes } => mes.clone(),
            ReactError::RankNotUpdated { mes } => mes.clone(),
            ReactError::GenericError => owned("An error occured in user_react()"),
            ReactError::NoWebsiteWithThatId => owned("No website with the provided id exists in solr."),
        }
    }
}

/// Whether a reaction changes the rank of the page: exactly one indexed page
/// has the id, and an upvote finds the rank at most 9 or a downvote finds
/// it at least -9.
pub open spec fn applies(found: nat, react: ReactType, at_most_9: bool, at_least_minus_9: bool) -> bool {
    found == 1 && ((at_most_9 && react == ReactType::Upvote) || (at_least_minus_9 && react == ReactType::Downvote))
}

/// The change of rank of a reaction that applies: +1 for an upvote, -1 for
/// a downvote.
pub open spec fn delta(react: ReactType) -> int {
    if react == ReactType::Upvote {
        1
    } else {
        -1
    }
}

/// Decides the change of rank that a reaction makes.
pub fn rank_change(found: usize, react: ReactType, at_most_9: bool, at_least_minus_9: bool) -> (r: Result<i8, ReactError>)
    ensures
        found == 0 ==> r matches Err(ReactError::NoWebsiteWithThatId),
        applies(found as nat, react, at_most_9, at_least_minus_9) ==> (r matches Ok(d) && d == delta(react)),
        found > 1 ==> (r matches Err(ReactError::InvalidArgument { mes }) && mes@ == "Vector is not empty and has a size != 1."@),
        found == 1 && !applies(found as nat, react, at_most_9, at_least_minus_9) ==> r matches Err(ReactError::GenericError),
{
    if found == 0 {
        Err(ReactError::NoWebsiteWithThatId)
    } else if found == 1 && ((at_most_9 && react == ReactType::Upvote) || (at_least_minus_9 && react
        == ReactType::Downvote)) {
        match react {
            ReactType::Upvote => Ok(1),
            ReactType::Downvote => Ok(-1),
        }
    } else if found != 1 {
        Err(ReactError::InvalidArgument { mes: owned("Vector is not empty and has a size != 1.") })
    } else {
        Err(ReactError::GenericError)
    }
}

/// A reaction keeps an integer rank between -10 and 10: the change is made
/// only where the rank can take it.
pub proof fn reaction_keeps_rank_in_bounds(rank: int, react: ReactType)
    requires
        -10 <= rank <= 10,
    ensures
        applies(1, react, rank <= 9, rank >= -9) ==> -10 <= rank + delta(react) <= 10,
{
}

} // verus!
