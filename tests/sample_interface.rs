use densmap::sample_interface::{next_search_state, Direction, Probe, RadiusChange, SearchState};

#[test]
fn seeking_steps_inward_until_inside() {
    assert_eq!(
        (SearchState::SeekDirection, RadiusChange::StepInward),
        next_search_state(SearchState::SeekDirection, Probe::Outside)
    );
    assert_eq!(
        (SearchState::Walk(Direction::Increasing), RadiusChange::Keep),
        next_search_state(SearchState::SeekDirection, Probe::Filled)
    );
    assert_eq!(
        (SearchState::Walk(Direction::Decreasing), RadiusChange::Keep),
        next_search_state(SearchState::SeekDirection, Probe::Below)
    );
    assert_eq!(
        (SearchState::Done, RadiusChange::Keep),
        next_search_state(SearchState::SeekDirection, Probe::AtCenter)
    );
}

#[test]
fn outward_walk_stops_before_empty_or_outside() {
    let walk = SearchState::Walk(Direction::Increasing);
    assert_eq!((walk, RadiusChange::Keep), next_search_state(walk, Probe::Filled));
    assert_eq!((SearchState::Done, RadiusChange::Revert), next_search_state(walk, Probe::Below));
    assert_eq!((SearchState::Done, RadiusChange::Revert), next_search_state(walk, Probe::Outside));
    assert_eq!((SearchState::Done, RadiusChange::Keep), next_search_state(walk, Probe::AtCenter));
}

#[test]
fn inward_walk_stops_on_first_filled_sample() {
    let walk = SearchState::Walk(Direction::Decreasing);
    assert_eq!((walk, RadiusChange::Keep), next_search_state(walk, Probe::Below));
    assert_eq!((SearchState::Done, RadiusChange::Keep), next_search_state(walk, Probe::Filled));
    assert_eq!((SearchState::Done, RadiusChange::Revert), next_search_state(walk, Probe::Outside));
}

#[test]
fn done_stays_done() {
    for probe in [Probe::Outside, Probe::Below, Probe::Filled, Probe::AtCenter] {
        assert_eq!(
            (SearchState::Done, RadiusChange::Keep),
            next_search_state(SearchState::Done, probe)
        );
    }
}
