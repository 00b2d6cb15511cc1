use ferrisbot::moving::MoveOptionComponent::{
    ChangeNameButton, Channel, Destination, ExecuteButton, Forum, SelectUsers,
    SetLastMessageButton, Thread,
};
use ferrisbot::moving::{
    existing_thread_options, get_selected_channel, layout_rows, ActionRowLayout, BuildOutcome,
    ButtonStyle, ChannelKind, ComponentSpec, DestinationPlan, DialogStep, InteractionData,
    MoveDestination, MoveDestinationOption, MoveOptionComponent, MoveOptions, MoveOptionsDialog, RollbackStep,
};

fn row_components(rows: &[ActionRowLayout]) -> Vec<Vec<MoveOptionComponent>> {
    rows.iter()
        .map(|r| match r {
            ActionRowLayout::SelectMenu(c) => vec![*c],
            ActionRowLayout::Buttons(v) => v.clone(),
        })
        .collect()
}

#[test]
fn destination_option_names() {
    assert_eq!(MoveDestinationOption::default_option(), MoveDestinationOption::Channel);
    let names: Vec<&str> = MoveDestinationOption::list().iter().map(|o| o.name()).collect();
    assert_eq!(names, vec!["Channel", "New Thread", "Existing Thread", "New Forum Post"]);
    for o in MoveDestinationOption::list() {
        assert_eq!(MoveDestinationOption::from_name(o.name()), Some(o));
    }
    assert_eq!(
        MoveDestinationOption::from_name("new THREAD"),
        Some(MoveDestinationOption::NewThread)
    );
    assert_eq!(MoveDestinationOption::from_name("NewThread"), None);
    assert_eq!(MoveDestinationOption::from_name(""), None);
}

#[test]
fn destination_option_components() {
    assert_eq!(
        MoveDestinationOption::Channel.components(),
        vec![SelectUsers, Destination, Channel, ExecuteButton, SetLastMessageButton]
    );
    assert_eq!(
        MoveDestinationOption::NewForumPost.components(),
        vec![SelectUsers, Destination, Forum, ExecuteButton, SetLastMessageButton, ChangeNameButton]
    );
    assert_eq!(MoveDestinationOption::NewThread.needs_to_be_set(), vec![Channel]);
    assert_eq!(MoveDestinationOption::ExistingThread.needs_to_be_set(), vec![Thread]);
    assert_eq!(MoveDestinationOption::NewForumPost.needs_to_be_set(), vec![Forum]);
}

#[test]
fn component_ids_round_trip() {
    for c in [
        SelectUsers,
        Destination,
        Forum,
        Thread,
        Channel,
        ExecuteButton,
        SetLastMessageButton,
        ChangeNameButton,
    ] {
        assert_eq!(MoveOptionComponent::from_custom_id(c.custom_id()), Some(c));
    }
    assert_eq!(ExecuteButton.custom_id(), "ExecuteButton");
    assert_eq!(MoveOptionComponent::from_custom_id("executebutton"), None);
    assert!(Channel.needs_to_be_set() && Forum.needs_to_be_set() && Thread.needs_to_be_set());
    assert!(!SelectUsers.needs_to_be_set() && !ExecuteButton.needs_to_be_set());
    assert!(!ChangeNameButton.can_defer() && !SetLastMessageButton.can_defer());
    assert!(ExecuteButton.can_defer() && Destination.can_defer());
}

#[test]
fn move_destination_ids() {
    let c = MoveDestination::Channel(5);
    assert_eq!((c.id(), c.channel(), c.thread()), (5, 5, None));
    let t = MoveDestination::Thread { channel: 5, thread: 9, delete_on_fail: false };
    assert_eq!((t.id(), t.channel(), t.thread()), (9, 5, Some(9)));
    assert_eq!(c.thread_to_delete_on_failure(), None);
    assert_eq!(t.thread_to_delete_on_failure(), None);
    assert_eq!(MoveDestination::created_thread(5, 9).thread_to_delete_on_failure(), Some(9));
    assert_eq!(
        MoveDestination::created_thread(5, 9),
        MoveDestination::Thread { channel: 5, thread: 9, delete_on_fail: true }
    );
}

#[test]
fn plan_for_each_kind_of_destination() {
    assert!(matches!(MoveOptions::Channel { id: 3 }.plan_destination(3), DestinationPlan::SameAsSource));
    assert!(matches!(
        MoveOptions::Channel { id: 4 }.plan_destination(3),
        DestinationPlan::Existing(MoveDestination::Channel(4))
    ));
    assert!(matches!(
        MoveOptions::ExistingThread { channel_id: 1, thread_id: 3 }.plan_destination(3),
        DestinationPlan::SameAsSource
    ));
    assert!(matches!(
        MoveOptions::ExistingThread { channel_id: 1, thread_id: 2 }.plan_destination(3),
        DestinationPlan::Existing(MoveDestination::Thread { channel: 1, thread: 2, delete_on_fail: false })
    ));
    match (MoveOptions::NewThread { channel_id: 3, thread_name: "t".to_string() }).plan_destination(3) {
        DestinationPlan::CreateThread { channel, name } => assert_eq!((channel, name.as_str()), (3, "t")),
        other => panic!("unexpected {other:?}"),
    }
    match (MoveOptions::NewForumPost { forum_id: 8, post_name: "p".to_string() }).plan_destination(3) {
        DestinationPlan::CreateForumPost { forum, name } => assert_eq!((forum, name.as_str()), (8, "p")),
        other => panic!("unexpected {other:?}"),
    }
}

#[test]
fn buttons_share_a_row() {
    let rows = layout_rows(&MoveDestinationOption::NewThread.components());
    assert_eq!(
        row_components(&rows),
        vec![
            vec![SelectUsers],
            vec![Destination],
            vec![Channel],
            vec![ExecuteButton, SetLastMessageButton, ChangeNameButton]
        ]
    );
    assert!(matches!(rows[3], ActionRowLayout::Buttons(_)));
    assert!(matches!(rows[0], ActionRowLayout::SelectMenu(SelectUsers)));
    let mixed = layout_rows(&vec![ExecuteButton, Channel, SetLastMessageButton, ChangeNameButton]);
    assert_eq!(
        row_components(&mixed),
        vec![vec![ExecuteButton], vec![Channel], vec![SetLastMessageButton, ChangeNameButton]]
    );
    assert!(layout_rows(&vec![]).is_empty());
}

#[test]
fn new_dialog_starts_on_channel() {
    let (dialog, rows) = MoveOptionsDialog::create(10, vec![1, 2], &vec![]);
    assert_eq!(dialog.initial_channel, 10);
    assert_eq!(dialog.destination, MoveDestinationOption::Channel);
    assert_eq!(dialog.thread_name, "Moved conversation");
    assert_eq!(dialog.involved_users, vec![1, 2]);
    assert_eq!(dialog.selected_users, vec![1, 2]);
    assert_eq!(dialog.selected_forum, None);
    assert_eq!(dialog.selected_channel, None);
    assert_eq!(dialog.last_message_id, None);
    // Components are kept among those to set only while a selection is made for them.
    assert!(dialog.needs_to_be_set.is_empty());
    assert_eq!(rows.len(), 4);
    assert!(matches!(dialog.build_move_options(), BuildOutcome::Missing("No channel specified")));

    let (with_forum, _) = MoveOptionsDialog::create(10, vec![], &vec![77]);
    assert_eq!(with_forum.selected_forum, Some(77));
    let (two_forums, _) = MoveOptionsDialog::create(10, vec![], &vec![77, 78]);
    assert_eq!(two_forums.selected_forum, None);
}

#[test]
fn source_channel_cannot_be_chosen() {
    let (mut dialog, _) = MoveOptionsDialog::create(10, vec![1], &vec![]);
    let step = dialog.interaction_received(MoveOptionComponent::Channel, InteractionData::ChannelSelect(vec![10]));
    assert!(matches!(step, DialogStep::Continue));
    assert_eq!(dialog.selected_channel, None);
    assert!(dialog.needs_to_be_set.is_empty());

    dialog.interaction_received(MoveOptionComponent::Channel, InteractionData::ChannelSelect(vec![20]));
    assert_eq!(dialog.selected_channel, Some(20));
    assert!(dialog.needs_to_be_set.is_empty());
    match dialog.interaction_received(MoveOptionComponent::ExecuteButton, InteractionData::Other) {
        DialogStep::Execute(BuildOutcome::Ready(MoveOptions::Channel { id })) => assert_eq!(id, 20),
        other => panic!("unexpected {other:?}"),
    }
}

#[test]
fn switching_to_new_thread_then_choosing_channel() {
    let (mut dialog, _) = MoveOptionsDialog::create(10, vec![1], &vec![]);
    let step = dialog.interaction_received(
        MoveOptionComponent::Destination,
        InteractionData::StringSelect(vec!["New Thread".to_string()]),
    );
    match step {
        DialogStep::ShowComponents(rows) => assert_eq!(rows.len(), 4),
        other => panic!("unexpected {other:?}"),
    }
    assert_eq!(dialog.destination, MoveDestinationOption::NewThread);
    assert!(dialog.needs_to_be_set.is_empty());
    dialog.interaction_received(MoveOptionComponent::Channel, InteractionData::ChannelSelect(vec![20]));

    match dialog.interaction_received(MoveOptionComponent::ChangeNameButton, InteractionData::Other) {
        DialogStep::AskThreadName(name) => assert_eq!(name, "Moved conversation"),
        other => panic!("unexpected {other:?}"),
    }
    dialog.thread_name_entered(Some("Help with lifetimes".to_string()));
    dialog.thread_name_entered(None);
    match dialog.build_move_options() {
        BuildOutcome::Ready(MoveOptions::NewThread { channel_id, thread_name }) => {
            assert_eq!(channel_id, 20);
            assert_eq!(thread_name, "Help with lifetimes");
        }
        other => panic!("unexpected {other:?}"),
    }
}

#[test]
fn switching_destination_after_choosing_channel_is_not_ready() {
    let (mut dialog, _) = MoveOptionsDialog::create(10, vec![1], &vec![]);
    dialog.interaction_received(MoveOptionComponent::Channel, InteractionData::ChannelSelect(vec![20]));
    dialog.interaction_received(
        MoveOptionComponent::Destination,
        InteractionData::StringSelect(vec!["New Thread".to_string()]),
    );
    assert_eq!(dialog.selected_channel, Some(20));
    assert_eq!(dialog.needs_to_be_set, vec![MoveOptionComponent::Channel]);
    assert!(matches!(dialog.build_move_options(), BuildOutcome::NotReady));
    match dialog.interaction_received(MoveOptionComponent::ExecuteButton, InteractionData::Other) {
        DialogStep::Execute(BuildOutcome::NotReady) => {}
        other => panic!("unexpected {other:?}"),
    }
}

#[test]
fn unknown_destination_name_changes_nothing() {
    let (mut dialog, _) = MoveOptionsDialog::create(10, vec![1], &vec![]);
    let step = dialog.interaction_received(
        MoveOptionComponent::Destination,
        InteractionData::StringSelect(vec!["Somewhere".to_string()]),
    );
    assert!(matches!(step, DialogStep::Continue));
    assert_eq!(dialog.destination, MoveDestinationOption::Channel);
    let step = dialog.interaction_received(MoveOptionComponent::Destination, InteractionData::StringSelect(vec![]));
    assert!(matches!(step, DialogStep::Continue));
    assert_eq!(dialog.destination, MoveDestinationOption::Channel);
}

#[test]
fn existing_thread_needs_its_parent() {
    let (mut dialog, _) = MoveOptionsDialog::create(10, vec![1, 2], &vec![]);
    dialog.interaction_received(
        MoveOptionComponent::Destination,
        InteractionData::StringSelect(vec!["existing thread".to_string()]),
    );
    assert_eq!(dialog.destination, MoveDestinationOption::ExistingThread);
    assert!(dialog.needs_to_be_set.is_empty());
    dialog.interaction_received(MoveOptionComponent::Thread, InteractionData::ChannelSelect(vec![10]));
    assert_eq!(dialog.selected_thread, None);
    dialog.interaction_received(MoveOptionComponent::Thread, InteractionData::ChannelSelect(vec![30]));
    assert_eq!(dialog.selected_thread, Some(30));
    match dialog.build_move_options() {
        BuildOutcome::NeedsThreadParent(t) => assert_eq!(t, 30),
        other => panic!("unexpected {other:?}"),
    }
    assert!(matches!(
        existing_thread_options(30, Some(4)),
        Ok(MoveOptions::ExistingThread { channel_id: 4, thread_id: 30 })
    ));
    assert_eq!(existing_thread_options(30, None).unwrap_err(), "thread channel has no parent");
}

#[test]
fn forum_post_uses_thread_name() {
    let (mut dialog, _) = MoveOptionsDialog::create(10, vec![1], &vec![]);
    dialog.interaction_received(
        MoveOptionComponent::Destination,
        InteractionData::StringSelect(vec!["New Forum Post".to_string()]),
    );
    assert!(dialog.needs_to_be_set.is_empty());
    dialog.interaction_received(MoveOptionComponent::Forum, InteractionData::ChannelSelect(vec![55]));
    match dialog.build_move_options() {
        BuildOutcome::Ready(MoveOptions::NewForumPost { forum_id, post_name }) => {
            assert_eq!(forum_id, 55);
            assert_eq!(post_name, "Moved conversation");
        }
        other => panic!("unexpected {other:?}"),
    }
}

#[test]
fn missing_selection_messages() {
    let mut dialog = MoveOptionsDialog::create(10, vec![1], &vec![]).0;
    dialog.needs_to_be_set.clear();
    assert!(matches!(dialog.build_move_options(), BuildOutcome::Missing("No channel specified")));
    dialog.destination = MoveDestinationOption::ExistingThread;
    assert!(matches!(dialog.build_move_options(), BuildOutcome::Missing("No thread specified")));
    dialog.destination = MoveDestinationOption::NewForumPost;
    assert!(matches!(dialog.build_move_options(), BuildOutcome::Missing("No forum specified")));
}

#[test]
fn selecting_users_and_last_message() {
    let (mut dialog, _) = MoveOptionsDialog::create(10, vec![1, 2, 3], &vec![]);
    dialog.interaction_received(MoveOptionComponent::SelectUsers, InteractionData::UserSelect(vec![2]));
    assert_eq!(dialog.selected_users, vec![2]);
    assert_eq!(dialog.involved_users, vec![1, 2, 3]);

    match dialog.interaction_received(MoveOptionComponent::SetLastMessageButton, InteractionData::Other) {
        DialogStep::AskLastMessage(id) => assert_eq!(id, None),
        other => panic!("unexpected {other:?}"),
    }
    dialog.last_message_entered(Some(Some("1234".to_string())));
    assert_eq!(dialog.last_message_id, Some(1234));
    dialog.last_message_entered(None);
    assert_eq!(dialog.last_message_id, Some(1234));
    dialog.last_message_entered(Some(Some("not a number".to_string())));
    assert_eq!(dialog.last_message_id, None);
    dialog.last_message_entered(Some(Some("+77".to_string())));
    assert_eq!(dialog.last_message_id, Some(77));
    dialog.last_message_entered(Some(None));
    assert_eq!(dialog.last_message_id, None);
}

#[test]
fn selected_channel_of_interaction() {
    assert_eq!(get_selected_channel(&InteractionData::ChannelSelect(vec![4, 5])), Some(4));
    assert_eq!(get_selected_channel(&InteractionData::ChannelSelect(vec![])), None);
    assert_eq!(get_selected_channel(&InteractionData::UserSelect(vec![4])), None);
    assert_eq!(get_selected_channel(&InteractionData::Other), None);
}

#[test]
fn dialog_components() {
    let (mut dialog, _) = MoveOptionsDialog::create(10, vec![1, 2], &vec![]);
    match dialog.create_component(MoveOptionComponent::SelectUsers) {
        ComponentSpec::UserSelect { custom_id, placeholder, default_users, max_values } => {
            assert_eq!(custom_id, "SelectUsers");
            assert_eq!(placeholder, "Which users should have their messages moved?");
            assert_eq!(default_users, vec![1, 2]);
            assert_eq!(max_values, 2);
        }
        other => panic!("unexpected {other:?}"),
    }
    match dialog.create_component(MoveOptionComponent::Destination) {
        ComponentSpec::DestinationSelect { options, min_values, max_values, .. } => {
            assert_eq!(
                options,
                vec![
                    ("Channel", true),
                    ("New Thread", false),
                    ("Existing Thread", false),
                    ("New Forum Post", false)
                ]
            );
            assert_eq!((min_values, max_values), (1, 1));
        }
        other => panic!("unexpected {other:?}"),
    }
    match dialog.create_component(MoveOptionComponent::Channel) {
        ComponentSpec::ChannelSelect { channel_kind, default_channel, placeholder, .. } => {
            assert_eq!(channel_kind, ChannelKind::Text);
            assert_eq!(default_channel, None);
            assert_eq!(placeholder, "Which channel should messages be moved to?");
        }
        other => panic!("unexpected {other:?}"),
    }
    match dialog.create_component(MoveOptionComponent::ChangeNameButton) {
        ComponentSpec::Button { style, label, .. } => {
            assert_eq!(style, ButtonStyle::Secondary);
            assert_eq!(label, "Change thread name");
        }
        other => panic!("unexpected {other:?}"),
    }
    dialog.destination = MoveDestinationOption::NewForumPost;
    match dialog.create_component(MoveOptionComponent::ChangeNameButton) {
        ComponentSpec::Button { label, .. } => assert_eq!(label, "Change forum post name"),
        other => panic!("unexpected {other:?}"),
    }
    match dialog.create_component(MoveOptionComponent::ExecuteButton) {
        ComponentSpec::Button { custom_id, style, label } => {
            assert_eq!((custom_id, style, label), ("ExecuteButton", ButtonStyle::Danger, "Move"));
        }
        other => panic!("unexpected {other:?}"),
    }
}

#[test]
fn rollback_deletes_created_thread_first() {
    let created = MoveDestination::created_thread(5, 9);
    assert_eq!(created.rollback_step(None), RollbackStep::DeleteThread(9));
    assert_eq!(created.rollback_step(Some(true)), RollbackStep::Done);
    assert_eq!(created.rollback_step(Some(false)), RollbackStep::DeleteRelayedMessages);
    let existing = MoveDestination::Thread { channel: 5, thread: 9, delete_on_fail: false };
    assert_eq!(existing.rollback_step(None), RollbackStep::DeleteRelayedMessages);
    assert_eq!(MoveDestination::Channel(5).rollback_step(None), RollbackStep::DeleteRelayedMessages);
}
