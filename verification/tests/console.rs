use review_tracker::{
    get_today_list, review_label, Cli, CliState, CommandOutcome, Commands, Date, EditArgs,
    PreviousStorage, ReviewTopic, Storage, Timestamp,
};

fn ts(year: u16, month: u8, day: u8) -> Timestamp {
    Timestamp {
        date: Date { year, month, day },
        hour: 9,
        minute: 15,
        second: 0,
        nanosecond: 0,
        offset_minutes: -60,
    }
}

#[test]
fn today_list_keeps_exactly_the_due_topics() {
    let today = Date { year: 2025, month: 6, day: 15 };
    let mut storage = Storage::new(PreviousStorage::No, None);
    storage.add_review_topic_at(ReviewTopic::new_at("due".to_string(), ts(2025, 6, 13)), &today);
    storage.add_review_topic_at(ReviewTopic::new_at("fresh".to_string(), ts(2025, 6, 15)), &today);
    let list = storage.get_review_topic_list();

    let due = get_today_list(&list, &today);
    assert_eq!(due.len(), 1);
    assert_eq!(due[0].topic_name, "due");
}

#[test]
fn labels_pluralize_days() {
    let today = Date { year: 2025, month: 6, day: 15 };
    let due = ReviewTopic::new_at("a".to_string(), ts(2025, 6, 13));
    assert_eq!(review_label(&due, &today), "Today");

    let one_day = ReviewTopic::new_at("b".to_string(), ts(2025, 6, 15));
    assert_eq!(review_label(&one_day, &today), "1 Day");

    let mut week = ReviewTopic::new_at("c".to_string(), ts(2025, 6, 15));
    week.review_at(ts(2025, 6, 15));
    assert_eq!(review_label(&week, &today), "7 Days");
}

#[test]
fn view_command_only_shows() {
    let now = ts(2025, 6, 15);
    let mut storage = Storage::new(PreviousStorage::No, None);
    let cli = Cli { command: Commands::View { view: CliState::Today } };
    let r = storage.apply_command(cli.command, &now);
    assert_eq!(r, CommandOutcome::Show(CliState::Today));
    let r = storage.apply_command(Commands::View { view: CliState::All }, &now);
    assert_eq!(r, CommandOutcome::Show(CliState::All));
    assert_eq!(storage.get_review_topic_list().len(), 0);
}

#[test]
fn add_command_inserts_and_persists() {
    let now = ts(2025, 6, 15);
    let mut storage = Storage::new(PreviousStorage::No, None);
    let r = storage.apply_command(Commands::Add { topic_name: "algebra".to_string() }, &now);
    assert_eq!(r, CommandOutcome::Persist);
    assert_eq!(storage.get_review_topic_list().len(), 1);

    // A duplicate add is a silent no-op, but the caller still persists.
    let r = storage.apply_command(Commands::Add { topic_name: "algebra".to_string() }, &now);
    assert_eq!(r, CommandOutcome::Persist);
    assert_eq!(storage.get_review_topic_list().len(), 1);

    let r = storage.apply_command(Commands::Add { topic_name: "".to_string() }, &now);
    assert_eq!(r, CommandOutcome::EmptyName);
    assert_eq!(storage.get_review_topic_list().len(), 1);
}

#[test]
fn remove_command_reports_missing_names() {
    let now = ts(2025, 6, 15);
    let mut storage = Storage::new(PreviousStorage::No, None);
    storage.apply_command(Commands::Add { topic_name: "algebra".to_string() }, &now);

    let r = storage.apply_command(Commands::Remove { topic_name: "missing".to_string() }, &now);
    assert_eq!(r, CommandOutcome::NotFound);
    assert_eq!(storage.get_review_topic_list().len(), 1);

    let r = storage.apply_command(Commands::Remove { topic_name: "algebra".to_string() }, &now);
    assert_eq!(r, CommandOutcome::Persist);
    assert_eq!(storage.get_review_topic_list().len(), 0);
}

#[test]
fn review_command_updates_the_topic() {
    let now = ts(2025, 6, 15);
    let mut storage = Storage::new(PreviousStorage::No, None);
    storage.apply_command(Commands::Add { topic_name: "algebra".to_string() }, &now);

    let later = ts(2025, 6, 16);
    let r = storage.apply_command(Commands::Review { topic_name: "algebra".to_string() }, &later);
    assert_eq!(r, CommandOutcome::Persist);
    let list = storage.get_review_topic_list();
    assert_eq!(list[0].next_review_gap, review_tracker::NextReviewGap::Week);
    assert_eq!(list[0].last_reviewed, later);

    let r = storage.apply_command(Commands::Review { topic_name: "nope".to_string() }, &later);
    assert_eq!(r, CommandOutcome::NotFound);
}

#[test]
fn edit_command_renames_or_reports() {
    let now = ts(2025, 6, 15);
    let mut storage = Storage::new(PreviousStorage::No, None);
    storage.apply_command(Commands::Add { topic_name: "algebra".to_string() }, &now);
    storage.apply_command(Commands::Add { topic_name: "calculus".to_string() }, &now);

    let r = storage.apply_command(
        Commands::Edit(EditArgs {
            topic_name: "missing".to_string(),
            new_topic_name: "x".to_string(),
        }),
        &now,
    );
    assert_eq!(r, CommandOutcome::NotFound);

    let r = storage.apply_command(
        Commands::Edit(EditArgs {
            topic_name: "algebra".to_string(),
            new_topic_name: "calculus".to_string(),
        }),
        &now,
    );
    assert_eq!(r, CommandOutcome::DuplicateName);

    let r = storage.apply_command(
        Commands::Edit(EditArgs {
            topic_name: "algebra".to_string(),
            new_topic_name: "geometry".to_string(),
        }),
        &now,
    );
    assert_eq!(r, CommandOutcome::Persist);
    assert!(storage.find_review_topic("geometry".to_string()).is_some());
    assert!(storage.find_review_topic("algebra".to_string()).is_none());
}
