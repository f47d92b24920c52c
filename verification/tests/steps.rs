use cln_tracker::steps::{first_step, next_step, Action, Event, Phase, Work};

fn actions(work: Work, stored: bool) -> Vec<Action> {
    let (mut phase, mut action) = first_step(work, stored);
    let mut actions = vec![action];
    while action != Action::Finish {
        let (next, following) = next_step(work, phase, Event::Done);
        phase = next;
        action = following;
        actions.push(action);
    }
    actions
}

#[test]
fn work_is_stored_before_anything_is_done() {
    assert_eq!(
        actions(Work::Registration, false),
        vec![
            Action::Store,
            Action::Scan,
            Action::Complete,
            Action::Watch,
            Action::Activate,
            Action::Finish,
        ]
    );
    assert_eq!(
        actions(Work::Rescan, false),
        vec![
            Action::Store,
            Action::Scan,
            Action::Watch,
            Action::Activate,
            Action::Finish,
        ]
    );
    let watched = vec![
        Action::Store,
        Action::Watch,
        Action::Activate,
        Action::Deliver,
        Action::Finish,
    ];
    assert_eq!(actions(Work::Update, false), watched);
    assert_eq!(actions(Work::Deposit, false), watched);
    assert_eq!(actions(Work::Reconciliation, true), watched[1..].to_vec());
    assert_eq!(actions(Work::Update, true), watched[1..].to_vec());
    assert_eq!(
        actions(Work::Address, false),
        vec![
            Action::Store,
            Action::Watch,
            Action::Activate,
            Action::Finish,
        ]
    );
    let told = vec![Action::Store, Action::Deliver, Action::Finish];
    assert_eq!(actions(Work::HistoricalDeposit, false), told);
    assert_eq!(actions(Work::Spend, false), told);
    assert_eq!(
        actions(Work::Removal, false),
        vec![
            Action::Store,
            Action::Unwatch,
            Action::RemoveAddresses,
            Action::RemoveRecord,
            Action::Finish,
        ]
    );
}

#[test]
fn a_step_that_fails_is_the_last() {
    let (phase, action) = first_step(Work::Deposit, false);
    assert_eq!((phase, action), (Phase::Planned, Action::Store));
    let (phase, action) = next_step(Work::Deposit, phase, Event::Failed);
    assert_eq!((phase, action), (Phase::Stopped, Action::Stop));
    assert_eq!(
        next_step(Work::Deposit, phase, Event::Done),
        (Phase::Stopped, Action::Stop)
    );
}
