use vstd::prelude::*;

verus! {

/// Whether the search walks outward or inward from the initial radius.
#[derive(Clone, Copy, Debug, PartialEq, Eq, Structural)]
pub enum Direction {
    /// The initial sample is filled: walk outward until the density drops.
    Increasing,
    /// The initial sample is empty: walk inward until the density is reached.
    Decreasing,
}

/// Phase of the search for the interface along one ray from the center.
#[derive(Clone, Copy, Debug, PartialEq, Eq, Structural)]
pub enum SearchState {
    /// Looking for the first sample inside the grid, stepping inward.
    SeekDirection,
    /// Walking along the ray in the chosen direction.
    Walk(Direction),
    /// The radius is final.
    Done,
}

/// What was observed at the current radius.
#[derive(Clone, Copy, Debug, PartialEq, Eq, Structural)]
pub enum Probe {
    /// The sample point lies outside the grid.
    Outside,
    /// The sample lies inside the grid and its density is below the cutoff.
    Below,
    /// The sample lies inside the grid and its density is at or above the cutoff.
    Filled,
    /// The radius has reached the center, so no sample was taken.
    AtCenter,
}

/// How to change the radius on a transition.
#[derive(Clone, Copy, Debug, PartialEq, Eq, Structural)]
pub enum RadiusChange {
    /// Leave the radius as it is.
    Keep,
    /// Move the radius one step towards the center.
    StepInward,
    /// Undo the step that the walk took before this probe.
    Revert,
}

/// One transition of the search for the interface along a ray.
///
/// While seeking, each probe is taken at the current radius: a sample
/// outside the grid moves the radius one step inward, and the first sample
/// inside the grid picks the direction of the walk. While walking, the
/// radius is first moved one step in the walk's direction and then probed:
/// an outward walk stops on the step before the first sample outside the
/// grid or below the cutoff; an inward walk stops on the first filled
/// sample, or on the step before the first sample outside the grid.
/// Reaching the center ends the search where it stands.
pub fn next_search_state(state: SearchState, probe: Probe) -> (r: (SearchState, RadiusChange))
    ensures
        state == SearchState::Done ==> r == (SearchState::Done, RadiusChange::Keep),
        state is Walk ==> r.0 == state || r.0 == SearchState::Done,
        probe == Probe::AtCenter ==> r == (SearchState::Done, RadiusChange::Keep),
        state == SearchState::SeekDirection ==> {
            &&& probe == Probe::Outside ==> r == (SearchState::SeekDirection, RadiusChange::StepInward)
            &&& probe == Probe::Filled ==> r == (SearchState::Walk(Direction::Increasing), RadiusChange::Keep)
            &&& probe == Probe::Below ==> r == (SearchState::Walk(Direction::Decreasing), RadiusChange::Keep)
        },
        state == SearchState::Walk(Direction::Increasing) ==> {
            &&& probe == Probe::Outside ==> r == (SearchState::Done, RadiusChange::Revert)
            &&& probe == Probe::Below ==> r == (SearchState::Done, RadiusChange::Revert)
            &&& probe == Probe::Filled ==> r == (state, RadiusChange::Keep)
        },
        state == SearchState::Walk(Direction::Decreasing) ==> {
            &&& probe == Probe::Outside ==> r == (SearchState::Done, RadiusChange::Revert)
            &&& probe == Probe::Filled ==> r == (SearchState::Done, RadiusChange::Keep)
            &&& probe == Probe::Below ==> r == (state, RadiusChange::Keep)
        },
{
    match (state, probe) {
        (SearchState::Done, _) => (SearchState::Done, RadiusChange::Keep),
        (_, Probe::AtCenter) => (SearchState::Done, RadiusChange::Keep),
        (SearchState::SeekDirection, Probe::Outside) => (
            SearchState::SeekDirection,
            RadiusChange::StepInward,
        ),
        (SearchState::SeekDirection, Probe::Filled) => (
            SearchState::Walk(Direction::Increasing),
            RadiusChange::Keep,
        ),
        (SearchState::SeekDirection, Probe::Below) => (
            SearchState::Walk(Direction::Decreasing),
            RadiusChange::Keep,
        ),
        (SearchState::Walk(_), Probe::Outside) => (SearchState::Done, RadiusChange::Revert),
        (SearchState::Walk(Direction::Increasing), Probe::Below) => (
            SearchState::Done,
            RadiusChange::Revert,
        ),
        (SearchState::Walk(Direction::Decreasing), Probe::Filled) => (
            SearchState::Done,
            RadiusChange::Keep,
        ),
        (SearchState::Walk(d), _) => (SearchState::Walk(d), RadiusChange::Keep),
    }
}

} // verus!
