//! The decisions behind moving a conversation to another channel or thread:
//! the options dialog, the destination, which messages move, and what
//! reactions on relayed messages do.

use vstd::prelude::*;
use crate::text::{chars_of, eq_ignore_ascii_case, eq_ignore_ascii_case_exec, same_chars};

verus! {

/// Where the moved messages go.
#[derive(Clone, Copy, Debug, PartialEq, Eq, Structural)]
pub enum MoveDestinationOption {
    Channel,
    NewThread,
    ExistingThread,
    NewForumPost,
}

/// The parts of the move options dialog.
#[derive(Clone, Copy, Debug, PartialEq, Eq, Structural)]
pub enum MoveOptionComponent {
    SelectUsers,
    Destination,
    Forum,
    Thread,
    Channel,
    ExecuteButton,
    SetLastMessageButton,
    ChangeNameButton,
}

/// The display name of a destination option.
pub open spec fn spec_option_name(o: MoveDestinationOption) -> Seq<char> {
    match o {
        MoveDestinationOption::Channel => "Channel"@,
        MoveDestinationOption::NewThread => "New Thread"@,
        MoveDestinationOption::ExistingThread => "Existing Thread"@,
        MoveDestinationOption::NewForumPost => "New Forum Post"@,
    }
}

/// The option whose name equals `name` up to ASCII case.
pub open spec fn spec_option_from_name(name: Seq<char>) -> Option<MoveDestinationOption> {
    if eq_ignore_ascii_case(name, "Channel"@) {
        Some(MoveDestinationOption::Channel)
    } else if eq_ignore_ascii_case(name, "New Thread"@) {
        Some(MoveDestinationOption::NewThread)
    } else if eq_ignore_ascii_case(name, "Existing Thread"@) {
        Some(MoveDestinationOption::ExistingThread)
    } else if eq_ignore_ascii_case(name, "New Forum Post"@) {
        Some(MoveDestinationOption::NewForumPost)
    } else {
        None
    }
}

/// The components a destination option shows, in order.
pub open spec fn spec_components(o: MoveDestinationOption) -> Seq<MoveOptionComponent> {
    match o {
        MoveDestinationOption::Channel => seq![
            MoveOptionComponent::SelectUsers,
            MoveOptionComponent::Destination,
            MoveOptionComponent::Channel,
            MoveOptionComponent::ExecuteButton,
            MoveOptionComponent::SetLastMessageButton,
        ],
        MoveDestinationOption::NewThread => seq![
            MoveOptionComponent::SelectUsers,
            MoveOptionComponent::Destination,
            MoveOptionComponent::Channel,
            MoveOptionComponent::ExecuteButton,
            MoveOptionComponent::SetLastMessageButton,
            MoveOptionComponent::ChangeNameButton,
        ],
        MoveDestinationOption::ExistingThread => seq![
            MoveOptionComponent::SelectUsers,
            MoveOptionComponent::Destination,
            MoveOptionComponent::Thread,
            MoveOptionComponent::ExecuteButton,
            MoveOptionComponent::SetLastMessageButton,
        ],
        MoveDestinationOption::NewForumPost => seq![
            MoveOptionComponent::SelectUsers,
            MoveOptionComponent::Destination,
            MoveOptionComponent::Forum,
            MoveOptionComponent::ExecuteButton,
            MoveOptionComponent::SetLastMessageButton,
            MoveOptionComponent::ChangeNameButton,
        ],
    }
}

/// The component is a selection the user has to make.
pub open spec fn spec_component_needs_to_be_set(c: MoveOptionComponent) -> bool {
    c == MoveOptionComponent::Forum || c == MoveOptionComponent::Thread || c
        == MoveOptionComponent::Channel
}

/// The identifier a component carries in the dialog (its variant name).
pub open spec fn spec_custom_id(c: MoveOptionComponent) -> Seq<char> {
    match c {
        MoveOptionComponent::SelectUsers => "SelectUsers"@,
        MoveOptionComponent::Destination => "Destination"@,
        MoveOptionComponent::Forum => "Forum"@,
        MoveOptionComponent::Thread => "Thread"@,
        MoveOptionComponent::Channel => "Channel"@,
        MoveOptionComponent::ExecuteButton => "ExecuteButton"@,
        MoveOptionComponent::SetLastMessageButton => "SetLastMessageButton"@,
        MoveOptionComponent::ChangeNameButton => "ChangeNameButton"@,
    }
}

/// The component whose identifier is exactly `id`.
pub open spec fn spec_component_from_id(id: Seq<char>) -> Option<MoveOptionComponent> {
    if id == "SelectUsers"@ {
        Some(MoveOptionComponent::SelectUsers)
    } else if id == "Destination"@ {
        Some(MoveOptionComponent::Destination)
    } else if id == "Forum"@ {
        Some(MoveOptionComponent::Forum)
    } else if id == "Thread"@ {
        Some(MoveOptionComponent::Thread)
    } else if id == "Channel"@ {
        Some(MoveOptionComponent::Channel)
    } else if id == "ExecuteButton"@ {
        Some(MoveOptionComponent::ExecuteButton)
    } else if id == "SetLastMessageButton"@ {
        Some(MoveOptionComponent::SetLastMessageButton)
    } else if id == "ChangeNameButton"@ {
        Some(MoveOptionComponent::ChangeNameButton)
    } else {
        None
    }
}

impl MoveDestinationOption {
    /// The option a new dialog starts with.
    pub fn default_option() -> (res: Self)
        ensures
            res == MoveDestinationOption::Channel,
    {
        MoveDestinationOption::Channel
    }

    /// All options, in the order the dialog offers them.
    pub fn list() -> (res: Vec<Self>)
        ensures
            res@ == seq![
                MoveDestinationOption::Channel,
                MoveDestinationOption::NewThread,
                MoveDestinationOption::ExistingThread,
                MoveDestinationOption::NewForumPost,
            ],
    {
        let v = vec![
            MoveDestinationOption::Channel,
            MoveDestinationOption::NewThread,
            MoveDestinationOption::ExistingThread,
            MoveDestinationOption::NewForumPost,
        ];
        assert(v@ =~= seq![
            MoveDestinationOption::Channel,
            MoveDestinationOption::NewThread,
            MoveDestinationOption::ExistingThread,
            MoveDestinationOption::NewForumPost,
        ]);
        v
    }

    /// The display name of the option.
    pub fn name(&self) -> (res: &'static str)
        ensures
            res@ == spec_option_name(*self),
    {
        match self {
            MoveDestinationOption::Channel => "Channel",
            MoveDestinationOption::NewThread => "New Thread",
            MoveDestinationOption::ExistingThread => "Existing Thread",
            MoveDestinationOption::NewForumPost => "New Forum Post",
        }
    }

    /// The option named `name`, compared without regard to ASCII case.
    pub fn from_name(name: &str) -> (res: Option<Self>)
        ensures
            res == spec_option_from_name(name@),
    {
        let n = chars_of(name);
        if eq_ignore_ascii_case_exec(&n, &chars_of("Channel")) {
            Some(MoveDestinationOption::Channel)
        } else if eq_ignore_ascii_case_exec(&n, &chars_of("New Thread")) {
            Some(MoveDestinationOption::NewThread)
        } else if eq_ignore_ascii_case_exec(&n, &chars_of("Existing Thread")) {
            Some(MoveDestinationOption::ExistingThread)
        } else if eq_ignore_ascii_case_exec(&n, &chars_of("New Forum Post")) {
            Some(MoveDestinationOption::NewForumPost)
        } else {
            None
        }
    }

    /// The components this option shows, in order.
    pub fn components(self) -> (res: Vec<MoveOptionComponent>)
        ensures
            res@ == spec_components(self),
    {
        let v = match self {
            MoveDestinationOption::Channel => vec![
                MoveOptionComponent::SelectUsers,
                MoveOptionComponent::Destination,
                MoveOptionComponent::Channel,
                MoveOptionComponent::ExecuteButton,
                MoveOptionComponent::SetLastMessageButton,
            ],
            MoveDestinationOption::NewThread => vec![
                MoveOptionComponent::SelectUsers,
                MoveOptionComponent::Destination,
                MoveOptionComponent::Channel,
                MoveOptionComponent::ExecuteButton,
                MoveOptionComponent::SetLastMessageButton,
                MoveOptionComponent::ChangeNameButton,
            ],
            MoveDestinationOption::ExistingThread => vec![
                MoveOptionComponent::SelectUsers,
                MoveOptionComponent::Destination,
                MoveOptionComponent::Thread,
                MoveOptionComponent::ExecuteButton,
                MoveOptionComponent::SetLastMessageButton,
            ],
            MoveDestinationOption::NewForumPost => vec![
                MoveOptionComponent::SelectUsers,
                MoveOptionComponent::Destination,
                MoveOptionComponent::Forum,
                MoveOptionComponent::ExecuteButton,
                MoveOptionComponent::SetLastMessageButton,
                MoveOptionComponent::ChangeNameButton,
            ],
        };
        assert(v@ =~= spec_components(self));
        v
    }

    /// The components of this option that are selections to make.
    pub fn needs_to_be_set(self) -> (res: Vec<MoveOptionComponent>)
        ensures
            res@ == spec_components(self).filter(|c: MoveOptionComponent| spec_component_needs_to_be_set(c)),
    {
        let all = self.components();
        let mut res: Vec<MoveOptionComponent> = Vec::new();
        let mut i: usize = 0;
        while i < all.len()
            invariant
                all@ == spec_components(self),
                0 <= i <= all@.len(),
                res@ == all@.take(i as int).filter(|c: MoveOptionComponent| spec_component_needs_to_be_set(c)),
            decreases all@.len() - i,
        {
            proof {
                reveal_with_fuel(Seq::filter, 1);
                assert(all@.take(i + 1).drop_last() =~= all@.take(i as int));
            }
            let c = all[i];
            if c.needs_to_be_set() {
                res.push(c);
            }
            i = i + 1;
        }
        assert(all@.take(i as int) =~= all@);
        res
    }
}

impl MoveOptionComponent {
    /// The component is a selection the user has to make.
    pub fn needs_to_be_set(self) -> (res: bool)
        ensures
            res == spec_component_needs_to_be_set(self),
    {
        matches!(self, MoveOptionComponent::Forum | MoveOptionComponent::Thread | MoveOptionComponent::Channel)
    }

    /// The interaction may be acknowledged at once; buttons that open a
    /// form may not.
    pub fn can_defer(self) -> (res: bool)
        ensures
            res == !(self == MoveOptionComponent::ChangeNameButton || self
                == MoveOptionComponent::SetLastMessageButton),
    {
        !matches!(self, MoveOptionComponent::ChangeNameButton | MoveOptionComponent::SetLastMessageButton)
    }

    /// The identifier the component carries in the dialog.
    pub fn custom_id(self) -> (res: &'static str)
        ensures
            res@ == spec_custom_id(self),
    {
        match self {
            MoveOptionComponent::SelectUsers => "SelectUsers",
            MoveOptionComponent::Destination => "Destination",
            MoveOptionComponent::Forum => "Forum",
            MoveOptionComponent::Thread => "Thread",
            MoveOptionComponent::Channel => "Channel",
            MoveOptionComponent::ExecuteButton => "ExecuteButton",
            MoveOptionComponent::SetLastMessageButton => "SetLastMessageButton",
            MoveOptionComponent::ChangeNameButton => "ChangeNameButton",
        }
    }

    /// The component whose identifier is exactly `id`.
    pub fn from_custom_id(id: &str) -> (res: Option<Self>)
        ensures
            res == spec_component_from_id(id@),
    {
        let n = chars_of(id);
        if same_chars(&n, &chars_of("SelectUsers")) {
            Some(MoveOptionComponent::SelectUsers)
        } else if same_chars(&n, &chars_of("Destination")) {
            Some(MoveOptionComponent::Destination)
        } else if same_chars(&n, &chars_of("Forum")) {
            Some(MoveOptionComponent::Forum)
        } else if same_chars(&n, &chars_of("Thread")) {
            Some(MoveOptionComponent::Thread)
        } else if same_chars(&n, &chars_of("Channel")) {
            Some(MoveOptionComponent::Channel)
        } else if same_chars(&n, &chars_of("ExecuteButton")) {
            Some(MoveOptionComponent::ExecuteButton)
        } else if same_chars(&n, &chars_of("SetLastMessageButton")) {
            Some(MoveOptionComponent::SetLastMessageButton)
        } else if same_chars(&n, &chars_of("ChangeNameButton")) {
            Some(MoveOptionComponent::ChangeNameButton)
        } else {
            None
        }
    }
}

/// Reading a component's identifier back gives the component.
pub proof fn lemma_custom_id_roundtrip(c: MoveOptionComponent)
    ensures
        spec_component_from_id(spec_custom_id(c)) == Some(c),
{
    reveal_strlit("SelectUsers");
    reveal_strlit("Destination");
    reveal_strlit("Forum");
    reveal_strlit("Thread");
    reveal_strlit("Channel");
    reveal_strlit("ExecuteButton");
    reveal_strlit("SetLastMessageButton");
    reveal_strlit("ChangeNameButton");
    assert("Destination"@ != "SelectUsers"@) by {
        assert("Destination"@[0] != "SelectUsers"@[0]);
    }
    assert("SelectUsers"@.len() == 11);
    assert("Destination"@.len() == 11);
    assert("Forum"@.len() == 5);
    assert("Thread"@.len() == 6);
    assert("Channel"@.len() == 7);
    assert("ExecuteButton"@.len() == 13);
    assert("SetLastMessageButton"@.len() == 20);
    assert("ChangeNameButton"@.len() == 16);
}

/// Looking an option up by its own name gives the option back.
pub proof fn lemma_option_name_roundtrip(o: MoveDestinationOption)
    ensures
        spec_option_from_name(spec_option_name(o)) == Some(o),
{
    reveal_strlit("Channel");
    reveal_strlit("New Thread");
    reveal_strlit("Existing Thread");
    reveal_strlit("New Forum Post");
}


/// Where messages are relayed to: a channel, or a thread in a channel.
#[derive(Clone, Copy, Debug, PartialEq, Eq, Structural)]
pub enum MoveDestination {
    Channel(u64),
    Thread { channel: u64, thread: u64, delete_on_fail: bool },
}

/// What undoing a failed move does next.
#[derive(Clone, Copy, Debug, PartialEq, Eq, Structural)]
pub enum RollbackStep {
    /// Delete the thread or forum post that the move created.
    DeleteThread(u64),
    /// Delete the messages relayed so far.
    DeleteRelayedMessages,
    /// Nothing is left to undo.
    Done,
}

impl MoveDestination {
    /// The channel or thread messages are posted in.
    pub fn id(self) -> (res: u64)
        ensures
            res == match self {
                MoveDestination::Channel(c) => c,
                MoveDestination::Thread { thread, .. } => thread,
            },
    {
        match self {
            MoveDestination::Channel(channel) => channel,
            MoveDestination::Thread { thread, .. } => thread,
        }
    }

    /// The channel that owns the destination (where the webhook lives).
    pub fn channel(self) -> (res: u64)
        ensures
            res == match self {
                MoveDestination::Channel(c) => c,
                MoveDestination::Thread { channel, .. } => channel,
            },
    {
        match self {
            MoveDestination::Thread { channel, .. } | MoveDestination::Channel(channel) => channel,
        }
    }

    /// The thread of the destination, if it is one.
    pub fn thread(self) -> (res: Option<u64>)
        ensures
            res == match self {
                MoveDestination::Channel(_) => None,
                MoveDestination::Thread { thread, .. } => Some(thread),
            },
    {
        match self {
            MoveDestination::Channel(..) => None,
            MoveDestination::Thread { thread, .. } => Some(thread),
        }
    }

    /// The thread to delete when relaying into this destination fails: one
    /// that the move created itself.
    pub fn thread_to_delete_on_failure(self) -> (res: Option<u64>)
        ensures
            res == match self {
                MoveDestination::Thread { thread, delete_on_fail: true, .. } => Some(thread),
                _ => None,
            },
    {
        match self {
            MoveDestination::Thread { thread, delete_on_fail, .. } => if delete_on_fail {
                Some(thread)
            } else {
                None
            },
            MoveDestination::Channel(_) => None,
        }
    }

    /// The next step of undoing a move whose relaying failed (after the
    /// webhook is removed), given what deleting the created thread gave
    /// (`None` before that was tried): a thread that the move created is
    /// deleted first; only if there is none, or deleting it failed, are the
    /// relayed messages deleted one by one.
    pub fn rollback_step(self, thread_deleted: Option<bool>) -> (res: RollbackStep)
        ensures
            res == match thread_deleted {
                None => match self {
                    MoveDestination::Thread { thread, delete_on_fail: true, .. } => RollbackStep::DeleteThread(thread),
                    _ => RollbackStep::DeleteRelayedMessages,
                },
                Some(true) => RollbackStep::Done,
                Some(false) => RollbackStep::DeleteRelayedMessages,
            },
    {
        match thread_deleted {
            None => match self.thread_to_delete_on_failure() {
                Some(thread) => RollbackStep::DeleteThread(thread),
                None => RollbackStep::DeleteRelayedMessages,
            },
            Some(true) => RollbackStep::Done,
            Some(false) => RollbackStep::DeleteRelayedMessages,
        }
    }

    /// The destination of a thread or forum post that was created for the
    /// move, and is deleted again if relaying fails.
    pub fn created_thread(channel: u64, thread: u64) -> (res: MoveDestination)
        ensures
            res == (MoveDestination::Thread { channel, thread, delete_on_fail: true }),
    {
        MoveDestination::Thread { channel, thread, delete_on_fail: true }
    }
}

/// The choices of a completed dialog.
#[derive(Clone, Debug)]
pub enum MoveOptions {
    NewThread { channel_id: u64, thread_name: String },
    ExistingThread { channel_id: u64, thread_id: u64 },
    Channel { id: u64 },
    NewForumPost { forum_id: u64, post_name: String },
}

/// What has to happen to obtain the destination of a move.
#[derive(Clone, Debug)]
pub enum DestinationPlan {
    /// The destination is the channel the messages come from.
    SameAsSource,
    /// The destination exists already.
    Existing(MoveDestination),
    /// A public thread with this name has to be created in the channel.
    CreateThread { channel: u64, name: String },
    /// A post with this name has to be created in the forum.
    CreateForumPost { forum: u64, name: String },
}

/// `plan` is how to obtain the destination of `options` for a move that
/// starts in `source`.
pub open spec fn spec_plan(options: MoveOptions, source: u64, plan: DestinationPlan) -> bool {
    match (options, plan) {
        (MoveOptions::Channel { id }, DestinationPlan::SameAsSource) => id == source,
        (MoveOptions::Channel { id }, DestinationPlan::Existing(d)) => id != source && d
            == MoveDestination::Channel(id),
        (
            MoveOptions::ExistingThread { channel_id, thread_id },
            DestinationPlan::SameAsSource,
        ) => thread_id == source,
        (
            MoveOptions::ExistingThread { channel_id, thread_id },
            DestinationPlan::Existing(d),
        ) => thread_id != source && d == (MoveDestination::Thread {
            channel: channel_id,
            thread: thread_id,
            delete_on_fail: false,
        }),
        (
            MoveOptions::NewThread { channel_id, thread_name },
            DestinationPlan::CreateThread { channel, name },
        ) => channel == channel_id && name@ == thread_name@,
        (
            MoveOptions::NewForumPost { forum_id, post_name },
            DestinationPlan::CreateForumPost { forum, name },
        ) => forum == forum_id && name@ == post_name@,
        _ => false,
    }
}

impl MoveOptions {
    /// How to obtain the destination when the messages come from `source`.
    pub fn plan_destination(&self, source: u64) -> (res: DestinationPlan)
        ensures
            spec_plan(*self, source, res),
    {
        match self {
            MoveOptions::Channel { id } => if *id == source {
                DestinationPlan::SameAsSource
            } else {
                DestinationPlan::Existing(MoveDestination::Channel(*id))
            },
            MoveOptions::ExistingThread { thread_id, channel_id } => if *thread_id == source {
                DestinationPlan::SameAsSource
            } else {
                DestinationPlan::Existing(
                    MoveDestination::Thread {
                        channel: *channel_id,
                        thread: *thread_id,
                        delete_on_fail: false,
                    },
                )
            },
            MoveOptions::NewThread { channel_id, thread_name } => DestinationPlan::CreateThread {
                channel: *channel_id,
                name: thread_name.clone(),
            },
            MoveOptions::NewForumPost { forum_id, post_name } => DestinationPlan::CreateForumPost {
                forum: *forum_id,
                name: post_name.clone(),
            },
        }
    }
}


/// A row of the dialog: one select menu, or buttons side by side.
#[derive(Clone, Debug)]
pub enum ActionRowLayout {
    SelectMenu(MoveOptionComponent),
    Buttons(Vec<MoveOptionComponent>),
}

/// The component is shown as a button.
pub open spec fn is_button(c: MoveOptionComponent) -> bool {
    c == MoveOptionComponent::ExecuteButton || c == MoveOptionComponent::SetLastMessageButton || c
        == MoveOptionComponent::ChangeNameButton
}

/// The components of a row.
pub open spec fn row_components(r: ActionRowLayout) -> Seq<MoveOptionComponent> {
    match r {
        ActionRowLayout::SelectMenu(c) => seq![c],
        ActionRowLayout::Buttons(v) => v@,
    }
}

/// `cs` in rows of one component each, with adjacent buttons combined into
/// one row (`Itertools::coalesce` on button rows).
pub open spec fn group_rows(cs: Seq<MoveOptionComponent>) -> Seq<Seq<MoveOptionComponent>>
    decreases cs.len(),
{
    if cs.len() == 0 {
        seq![]
    } else {
        let prev = group_rows(cs.drop_last());
        let c = cs.last();
        if is_button(c) && prev.len() > 0 && is_button(prev.last().last()) {
            prev.drop_last().push(prev.last().push(c))
        } else {
            prev.push(seq![c])
        }
    }
}

/// `rows` lays out `cs`: one row per group, button groups as button rows.
pub open spec fn rows_lay_out(rows: Seq<ActionRowLayout>, cs: Seq<MoveOptionComponent>) -> bool {
    let g = group_rows(cs);
    &&& rows.len() == g.len()
    &&& forall|k: int|
        0 <= k < rows.len() ==> {
            &&& row_components(#[trigger] rows[k]) == g[k]
            &&& g[k].len() > 0
            &&& forall|j: int|
                0 <= j < g[k].len() ==> (is_button(g[k][j]) <==> rows[k] is Buttons)
        }
}

/// The rows that show `cs`, adjacent buttons side by side.
pub fn layout_rows(cs: &Vec<MoveOptionComponent>) -> (res: Vec<ActionRowLayout>)
    ensures
        rows_lay_out(res@, cs@),
{
    let mut rows: Vec<ActionRowLayout> = Vec::new();
    let mut i: usize = 0;
    assert(cs@.take(0) =~= Seq::<MoveOptionComponent>::empty());
    while i < cs.len()
        invariant
            0 <= i <= cs@.len(),
            rows_lay_out(rows@, cs@.take(i as int)),
        decreases cs@.len() - i,
    {
        let c = cs[i];
        let ghost prev = group_rows(cs@.take(i as int));
        let ghost old_rows = rows@;
        assert(cs@.take(i + 1).drop_last() =~= cs@.take(i as int));
        assert(cs@.take(i + 1).last() == c);
        let button = matches!(
            c,
            MoveOptionComponent::ExecuteButton | MoveOptionComponent::SetLastMessageButton
                | MoveOptionComponent::ChangeNameButton
        );
        let last_is_buttons = rows.len() > 0 && matches!(rows[rows.len() - 1], ActionRowLayout::Buttons(_));
        if button && last_is_buttons {
            let last = rows.pop();
            if let Some(ActionRowLayout::Buttons(mut v)) = last {
                proof {
                    let k = old_rows.len() - 1;
                    assert(row_components(old_rows[k]) == prev[k]);
                    assert(is_button(prev[k][prev[k].len() - 1]));
                }
                v.push(c);
                rows.push(ActionRowLayout::Buttons(v));
            }
            proof {
                let g = group_rows(cs@.take(i + 1));
                assert(g =~= prev.drop_last().push(prev.last().push(c)));
                assert forall|k: int| 0 <= k < rows@.len() implies {
                    &&& row_components(#[trigger] rows@[k]) == g[k]
                    &&& g[k].len() > 0
                    &&& forall|j: int|
                        0 <= j < g[k].len() ==> (is_button(g[k][j]) <==> rows@[k] is Buttons)
                } by {
                    if k < rows@.len() - 1 {
                        assert(rows@[k] == old_rows[k]);
                    } else {
                        assert(forall|j: int|
                            0 <= j < prev.last().len() ==> is_button(prev.last()[j]));
                    }
                }
            }
        } else {
            if button {
                rows.push(ActionRowLayout::Buttons(vec![c]));
            } else {
                rows.push(ActionRowLayout::SelectMenu(c));
            }
            proof {
                let g = group_rows(cs@.take(i + 1));
                if old_rows.len() > 0 && is_button(c) {
                    let k = old_rows.len() - 1;
                    assert(row_components(old_rows[k]) == prev[k]);
                    assert(!is_button(prev[k][prev[k].len() - 1]));
                }
                assert(g =~= prev.push(seq![c]));
                assert forall|k: int| 0 <= k < rows@.len() implies {
                    &&& row_components(#[trigger] rows@[k]) == g[k]
                    &&& g[k].len() > 0
                    &&& forall|j: int|
                        0 <= j < g[k].len() ==> (is_button(g[k][j]) <==> rows@[k] is Buttons)
                } by {
                    if k < rows@.len() - 1 {
                        assert(rows@[k] == old_rows[k]);
                    } else {
                        if button {
                            assert(row_components(rows@[k]) =~= seq![c]);
                        }
                    }
                }
            }
        }
        i = i + 1;
    }
    assert(cs@.take(i as int) =~= cs@);
    rows
}


/// The state of the move options dialog.
pub struct MoveOptionsDialog {
    /// The channel of the message the move starts at.
    pub initial_channel: u64,
    pub destination: MoveDestinationOption,
    /// Authors of the messages that may move.
    pub involved_users: Vec<u64>,
    pub thread_name: String,
    pub last_message_id: Option<u64>,
    pub selected_users: Vec<u64>,
    pub selected_forum: Option<u64>,
    pub selected_thread: Option<u64>,
    pub selected_channel: Option<u64>,
    pub needs_to_be_set: Vec<MoveOptionComponent>,
}

/// The dialog state as plain values.
pub struct DialogView {
    pub initial_channel: u64,
    pub destination: MoveDestinationOption,
    pub involved_users: Seq<u64>,
    pub thread_name: Seq<char>,
    pub last_message_id: Option<u64>,
    pub selected_users: Seq<u64>,
    pub selected_forum: Option<u64>,
    pub selected_thread: Option<u64>,
    pub selected_channel: Option<u64>,
    pub needs_to_be_set: Seq<MoveOptionComponent>,
}

impl View for MoveOptionsDialog {
    type V = DialogView;

    open spec fn view(&self) -> DialogView {
        DialogView {
            initial_channel: self.initial_channel,
            destination: self.destination,
            involved_users: self.involved_users@,
            thread_name: self.thread_name@,
            last_message_id: self.last_message_id,
            selected_users: self.selected_users@,
            selected_forum: self.selected_forum,
            selected_thread: self.selected_thread,
            selected_channel: self.selected_channel,
            needs_to_be_set: self.needs_to_be_set@,
        }
    }
}

/// The selection that component `c` stands for has been made in `v`.
pub open spec fn selection_made(v: DialogView, c: MoveOptionComponent) -> bool {
    match c {
        MoveOptionComponent::Forum => v.selected_forum is Some,
        MoveOptionComponent::Thread => v.selected_thread is Some,
        MoveOptionComponent::Channel => v.selected_channel is Some,
        _ => false,
    }
}

/// `v` after `update_set_fields`: only the pending components whose
/// selection has been made are kept.
pub open spec fn spec_update_set_fields(v: DialogView) -> DialogView {
    DialogView { needs_to_be_set: v.needs_to_be_set.filter(|c: MoveOptionComponent| selection_made(v, c)), ..v }
}

/// `v` after switching to destination `d`.
pub open spec fn spec_switch_destination(v: DialogView, d: MoveDestinationOption) -> DialogView {
    spec_update_set_fields(
        DialogView {
            destination: d,
            needs_to_be_set: spec_components(d).filter(
                |c: MoveOptionComponent| spec_component_needs_to_be_set(c),
            ),
            selected_thread: None,
            ..v
        },
    )
}

/// The single forum among `forums`, if there is exactly one.
pub open spec fn single_forum(forums: Seq<u64>) -> Option<u64> {
    if forums.len() == 1 {
        Some(forums[0])
    } else {
        None
    }
}

/// A new dialog for a move starting in `initial_channel`.
pub open spec fn spec_new_dialog(initial_channel: u64, users: Seq<u64>, forums: Seq<u64>) -> DialogView {
    spec_switch_destination(
        DialogView {
            initial_channel,
            destination: MoveDestinationOption::Channel,
            involved_users: users,
            thread_name: "Moved conversation"@,
            last_message_id: None,
            selected_users: users,
            selected_forum: single_forum(forums),
            selected_thread: None,
            selected_channel: None,
            needs_to_be_set: seq![],
        },
        MoveDestinationOption::Channel,
    )
}

impl MoveOptionsDialog {
    /// Keeps, of the pending selections, those that have been made.
    pub fn update_set_fields(&mut self)
        ensures
            final(self)@ == spec_update_set_fields(old(self)@),
    {
        let ghost v = self@;
        let mut kept: Vec<MoveOptionComponent> = Vec::new();
        let mut i: usize = 0;
        while i < self.needs_to_be_set.len()
            invariant
                self@ == v,
                0 <= i <= v.needs_to_be_set.len(),
                kept@ == v.needs_to_be_set.take(i as int).filter(
                    |c: MoveOptionComponent| selection_made(v, c),
                ),
            decreases v.needs_to_be_set.len() - i,
        {
            proof {
                reveal_with_fuel(Seq::filter, 1);
                assert(v.needs_to_be_set.take(i + 1).drop_last() =~= v.needs_to_be_set.take(i as int));
            }
            let c = self.needs_to_be_set[i];
            let made = match c {
                MoveOptionComponent::Forum => self.selected_forum.is_some(),
                MoveOptionComponent::Thread => self.selected_thread.is_some(),
                MoveOptionComponent::Channel => self.selected_channel.is_some(),
                _ => false,
            };
            if made {
                kept.push(c);
            }
            i = i + 1;
        }
        assert(v.needs_to_be_set.take(i as int) =~= v.needs_to_be_set);
        self.needs_to_be_set = kept;
    }

    /// Switches the dialog to destination `d` and returns the rows it now shows.
    pub fn switch_destination(&mut self, destination: MoveDestinationOption) -> (res: Vec<ActionRowLayout>)
        ensures
            final(self)@ == spec_switch_destination(old(self)@, destination),
            rows_lay_out(res@, spec_components(destination)),
    {
        self.destination = destination;
        self.needs_to_be_set = destination.needs_to_be_set();
        self.selected_thread = None;
        self.update_set_fields();
        layout_rows(&destination.components())
    }

    /// A dialog for a move that starts at a message in `initial_channel`,
    /// offering `users` (all selected); the forum is preselected when
    /// `forums` holds exactly one. Returns the dialog and its rows.
    pub fn create(initial_channel: u64, users: Vec<u64>, forums: &Vec<u64>) -> (res: (
        MoveOptionsDialog,
        Vec<ActionRowLayout>,
    ))
        ensures
            res.0@ == spec_new_dialog(initial_channel, users@, forums@),
            rows_lay_out(res.1@, spec_components(MoveDestinationOption::Channel)),
    {
        let selected_forum = if forums.len() == 1 {
            Some(forums[0])
        } else {
            None
        };
        let mut thread_name = String::new();
        crate::text::push_str(&mut thread_name, "Moved conversation");
        let mut dialog = MoveOptionsDialog {
            initial_channel,
            destination: MoveDestinationOption::default_option(),
            involved_users: users.clone(),
            thread_name,
            last_message_id: None,
            selected_users: users,
            selected_forum,
            selected_thread: None,
            selected_channel: None,
            needs_to_be_set: Vec::new(),
        };
        let rows = dialog.switch_destination(MoveDestinationOption::Channel);
        (dialog, rows)
    }
}


/// What an interaction with a dialog component carried.
#[derive(Clone, Debug)]
pub enum InteractionData {
    UserSelect(Vec<u64>),
    StringSelect(Vec<String>),
    ChannelSelect(Vec<u64>),
    Other,
}

/// The first channel of a channel selection.
pub open spec fn spec_selected_channel(data: InteractionData) -> Option<u64> {
    match data {
        InteractionData::ChannelSelect(values) => if values@.len() > 0 {
            Some(values@[0])
        } else {
            None
        },
        _ => None,
    }
}

/// The first channel of a channel selection, if the interaction is one.
pub fn get_selected_channel(data: &InteractionData) -> (res: Option<u64>)
    ensures
        res == spec_selected_channel(*data),
{
    if let InteractionData::ChannelSelect(values) = data {
        if values.len() > 0 {
            Some(values[0])
        } else {
            None
        }
    } else {
        None
    }
}

/// Whether the dialog is offered a selection (`Some`) to store: a thread or
/// channel selection is refused when it is the channel the move starts in
/// and the destination is of that very kind.
pub open spec fn accepts_selection(
    v: DialogView,
    kind: MoveDestinationOption,
    selected: Option<u64>,
) -> bool {
    v.destination != kind || match selected {
        None => true,
        Some(c) => c != v.initial_channel,
    }
}

/// The state after a component interaction, before any form is filled in.
pub open spec fn spec_after_interaction(
    v: DialogView,
    component: MoveOptionComponent,
    data: InteractionData,
) -> DialogView {
    match component {
        MoveOptionComponent::SelectUsers => match data {
            InteractionData::UserSelect(values) => spec_update_set_fields(
                DialogView { selected_users: values@, ..v },
            ),
            _ => spec_update_set_fields(v),
        },
        MoveOptionComponent::Destination => match data {
            InteractionData::StringSelect(values) => if values@.len() > 0 && spec_option_from_name(
                values@[0]@,
            ) is Some {
                spec_update_set_fields(
                    spec_switch_destination(v, spec_option_from_name(values@[0]@)->0),
                )
            } else if values@.len() > 0 {
                v
            } else {
                v
            },
            _ => spec_update_set_fields(v),
        },
        MoveOptionComponent::Forum => spec_update_set_fields(
            DialogView { selected_forum: spec_selected_channel(data), ..v },
        ),
        MoveOptionComponent::Thread => if accepts_selection(
            v,
            MoveDestinationOption::ExistingThread,
            spec_selected_channel(data),
        ) {
            spec_update_set_fields(DialogView { selected_thread: spec_selected_channel(data), ..v })
        } else {
            spec_update_set_fields(v)
        },
        MoveOptionComponent::Channel => if accepts_selection(
            v,
            MoveDestinationOption::Channel,
            spec_selected_channel(data),
        ) {
            spec_update_set_fields(DialogView { selected_channel: spec_selected_channel(data), ..v })
        } else {
            spec_update_set_fields(v)
        },
        _ => v,
    }
}

/// What has to happen after a component interaction.
#[derive(Clone, Debug)]
pub enum DialogStep {
    /// Keep waiting for interactions.
    Continue,
    /// Show these rows in place of the current ones, then keep waiting.
    ShowComponents(Vec<ActionRowLayout>),
    /// Ask for a thread name in a form, prefilled with this one.
    AskThreadName(String),
    /// Ask for the ID of the last message to move in a form, prefilled when set.
    AskLastMessage(Option<u64>),
    /// The user asked to move; this is what the dialog's choices amount to.
    Execute(BuildOutcome),
}

/// What the dialog's choices amount to when the user asks to move.
#[derive(Clone, Debug)]
pub enum BuildOutcome {
    /// A selection is still pending; nothing happens.
    NotReady,
    /// A required selection was not made; the message says which.
    Missing(&'static str),
    /// The move can go ahead with these options.
    Ready(MoveOptions),
    /// The parent channel of this thread has to be looked up first.
    NeedsThreadParent(u64),
}

/// The build outcome that `v` amounts to.
pub open spec fn spec_build(v: DialogView, out: BuildOutcome) -> bool {
    if v.needs_to_be_set.len() > 0 {
        out is NotReady
    } else {
        match v.destination {
            MoveDestinationOption::Channel => match v.selected_channel {
                Some(c) => out matches BuildOutcome::Ready(MoveOptions::Channel { id }) && id == c,
                None => out matches BuildOutcome::Missing(m) && m@ == "No channel specified"@,
            },
            MoveDestinationOption::NewThread => match v.selected_channel {
                Some(c) => out matches BuildOutcome::Ready(
                    MoveOptions::NewThread { channel_id, thread_name },
                ) && channel_id == c && thread_name@ == v.thread_name,
                None => out matches BuildOutcome::Missing(m) && m@ == "No channel specified"@,
            },
            MoveDestinationOption::ExistingThread => match v.selected_thread {
                Some(t) => out matches BuildOutcome::NeedsThreadParent(id) && id == t,
                None => out matches BuildOutcome::Missing(m) && m@ == "No thread specified"@,
            },
            MoveDestinationOption::NewForumPost => match v.selected_forum {
                Some(f) => out matches BuildOutcome::Ready(
                    MoveOptions::NewForumPost { forum_id, post_name },
                ) && forum_id == f && post_name@ == v.thread_name,
                None => out matches BuildOutcome::Missing(m) && m@ == "No forum specified"@,
            },
        }
    }
}

/// The options of a move into an existing thread, once its parent channel
/// is known; a thread without a parent is an error.
pub fn existing_thread_options(thread_id: u64, parent: Option<u64>) -> (res: Result<
    MoveOptions,
    &'static str,
>)
    ensures
        match parent {
            Some(p) => res matches Ok(MoveOptions::ExistingThread { channel_id, thread_id: t })
                && channel_id == p && t == thread_id,
            None => res matches Err(m) && m@ == "thread channel has no parent"@,
        },
{
    match parent {
        Some(parent_id) => Ok(MoveOptions::ExistingThread { channel_id: parent_id, thread_id }),
        None => Err("thread channel has no parent"),
    }
}

impl MoveOptionsDialog {
    /// What the dialog's choices amount to when the user asks to move.
    pub fn build_move_options(&self) -> (res: BuildOutcome)
        ensures
            spec_build(self@, res),
    {
        if self.needs_to_be_set.len() > 0 {
            return BuildOutcome::NotReady;
        }
        match self.destination {
            MoveDestinationOption::Channel => match self.selected_channel {
                Some(c) => BuildOutcome::Ready(MoveOptions::Channel { id: c }),
                None => BuildOutcome::Missing("No channel specified"),
            },
            MoveDestinationOption::NewThread => match self.selected_channel {
                Some(c) => BuildOutcome::Ready(
                    MoveOptions::NewThread { channel_id: c, thread_name: self.thread_name.clone() },
                ),
                None => BuildOutcome::Missing("No channel specified"),
            },
            MoveDestinationOption::ExistingThread => match self.selected_thread {
                Some(t) => BuildOutcome::NeedsThreadParent(t),
                None => BuildOutcome::Missing("No thread specified"),
            },
            MoveDestinationOption::NewForumPost => match self.selected_forum {
                Some(f) => BuildOutcome::Ready(
                    MoveOptions::NewForumPost { forum_id: f, post_name: self.thread_name.clone() },
                ),
                None => BuildOutcome::Missing("No forum specified"),
            },
        }
    }

    /// Handles an interaction with `component` that carried `data`: stores
    /// selections, switches the destination, or says which form to show or
    /// that the move should go ahead.
    pub fn interaction_received(&mut self, component: MoveOptionComponent, data: InteractionData) -> (res:
        DialogStep)
        ensures
            final(self)@ == spec_after_interaction(old(self)@, component, data),
            match component {
                MoveOptionComponent::Destination => match data {
                    InteractionData::StringSelect(values) => if values@.len() > 0
                        && spec_option_from_name(values@[0]@) is Some {
                        res matches DialogStep::ShowComponents(rows) && rows_lay_out(
                            rows@,
                            spec_components(spec_option_from_name(values@[0]@)->0),
                        )
                    } else {
                        res is Continue
                    },
                    _ => res is Continue,
                },
                MoveOptionComponent::ChangeNameButton => res matches DialogStep::AskThreadName(n)
                    && n@ == old(self)@.thread_name,
                MoveOptionComponent::SetLastMessageButton => res matches DialogStep::AskLastMessage(
                    id,
                ) && id == old(self)@.last_message_id,
                MoveOptionComponent::ExecuteButton => res matches DialogStep::Execute(out)
                    && spec_build(old(self)@, out),
                _ => res is Continue,
            },
    {
        match component {
            MoveOptionComponent::SelectUsers => {
                if let InteractionData::UserSelect(values) = data {
                    self.selected_users = values;
                }
                self.update_set_fields();
                DialogStep::Continue
            },
            MoveOptionComponent::Destination => {
                if let InteractionData::StringSelect(values) = &data {
                    if values.len() == 0 {
                        return DialogStep::Continue;
                    }
                    match MoveDestinationOption::from_name(values[0].as_str()) {
                        None => DialogStep::Continue,
                        Some(destination) => {
                            let rows = self.switch_destination(destination);
                            self.update_set_fields();
                            DialogStep::ShowComponents(rows)
                        },
                    }
                } else {
                    self.update_set_fields();
                    DialogStep::Continue
                }
            },
            MoveOptionComponent::Forum => {
                self.selected_forum = get_selected_channel(&data);
                self.update_set_fields();
                DialogStep::Continue
            },
            MoveOptionComponent::Thread => {
                let selected = get_selected_channel(&data);
                let accept = match self.destination {
                    MoveDestinationOption::ExistingThread => match selected {
                        None => true,
                        Some(c) => c != self.initial_channel,
                    },
                    _ => true,
                };
                if accept {
                    self.selected_thread = selected;
                }
                self.update_set_fields();
                DialogStep::Continue
            },
            MoveOptionComponent::Channel => {
                let selected = get_selected_channel(&data);
                let accept = match self.destination {
                    MoveDestinationOption::Channel => match selected {
                        None => true,
                        Some(c) => c != self.initial_channel,
                    },
                    _ => true,
                };
                if accept {
                    self.selected_channel = selected;
                }
                self.update_set_fields();
                DialogStep::Continue
            },
            MoveOptionComponent::ChangeNameButton => DialogStep::AskThreadName(self.thread_name.clone()),
            MoveOptionComponent::SetLastMessageButton => DialogStep::AskLastMessage(self.last_message_id),
            MoveOptionComponent::ExecuteButton => DialogStep::Execute(self.build_move_options()),
        }
    }

    /// Stores the thread name entered in the form, if the form was submitted.
    pub fn thread_name_entered(&mut self, input: Option<String>)
        ensures
            final(self)@ == spec_update_set_fields(
                match input {
                    Some(name) => DialogView { thread_name: name@, ..old(self)@ },
                    None => old(self)@,
                },
            ),
    {
        if let Some(name) = input {
            self.thread_name = name;
        }
        self.update_set_fields();
    }

    /// Stores the last message ID entered in the form, if the form was
    /// submitted: an ID that parses as a number is kept, anything else
    /// (including an empty field) clears it.
    pub fn last_message_entered(&mut self, input: Option<Option<String>>)
        requires
            input matches Some(Some(text)) ==> crate::text::spec_parse_u64(text@) != Some(0u64),
        ensures
            final(self)@ == spec_update_set_fields(
                match input {
                    Some(Some(text)) => DialogView {
                        last_message_id: crate::text::spec_parse_u64(text@),
                        ..old(self)@
                    },
                    Some(None) => DialogView { last_message_id: None, ..old(self)@ },
                    None => old(self)@,
                },
            ),
    {
        match input {
            Some(Some(text)) => {
                self.last_message_id = crate::text::parse_u64(text.as_str());
            },
            Some(None) => {
                self.last_message_id = None;
            },
            None => {},
        }
        self.update_set_fields();
    }
}


/// The look of a button.
#[derive(Clone, Copy, Debug, PartialEq, Eq, Structural)]
pub enum ButtonStyle {
    Danger,
    Secondary,
}

/// The kinds of channel a selection offers or a server counts.
#[derive(Clone, Copy, Debug, PartialEq, Eq, Structural)]
pub enum ChannelKind {
    Text,
    Voice,
    PublicThread,
    Forum,
    Other,
}

/// How one component of the dialog is to be drawn.
#[derive(Clone, Debug)]
pub enum ComponentSpec {
    /// A user selection, preselecting `default_users`.
    UserSelect {
        custom_id: &'static str,
        placeholder: &'static str,
        default_users: Vec<u64>,
        max_values: u8,
    },
    /// The destination selection: each option's name, and whether it is
    /// the current one.
    DestinationSelect {
        custom_id: &'static str,
        placeholder: &'static str,
        options: Vec<(&'static str, bool)>,
        min_values: u8,
        max_values: u8,
    },
    /// A channel selection among channels of one kind.
    ChannelSelect {
        custom_id: &'static str,
        placeholder: &'static str,
        channel_kind: ChannelKind,
        default_channel: Option<u64>,
        min_values: u8,
        max_values: u8,
    },
    /// A button.
    Button { custom_id: &'static str, style: ButtonStyle, label: &'static str },
}

/// `spec` draws component `c` of dialog state `v`.
pub open spec fn spec_component(v: DialogView, c: MoveOptionComponent, spec: ComponentSpec) -> bool {
    match c {
        MoveOptionComponent::SelectUsers => spec matches ComponentSpec::UserSelect {
            custom_id,
            placeholder,
            default_users,
            max_values,
        } && custom_id@ == spec_custom_id(c) && placeholder@
            == "Which users should have their messages moved?"@ && default_users@
            == v.involved_users && max_values == (v.involved_users.len() as u8),
        MoveOptionComponent::Destination => spec matches ComponentSpec::DestinationSelect {
            custom_id,
            placeholder,
            options,
            min_values,
            max_values,
        } && custom_id@ == spec_custom_id(c) && placeholder@ == "Where should messages be moved to?"@
            && min_values == 1 && max_values == 1 && options@.len() == 4 && (forall|i: int|
            0 <= i < 4 ==> {
                let o = #[trigger] options@[i];
                let all = seq![
                    MoveDestinationOption::Channel,
                    MoveDestinationOption::NewThread,
                    MoveDestinationOption::ExistingThread,
                    MoveDestinationOption::NewForumPost,
                ];
                &&& o.0@ == spec_option_name(all[i])
                &&& o.1 == (spec_option_name(all[i]) == spec_option_name(v.destination))
            }),
        MoveOptionComponent::Forum => spec matches ComponentSpec::ChannelSelect {
            custom_id,
            placeholder,
            channel_kind,
            default_channel,
            min_values,
            max_values,
        } && custom_id@ == spec_custom_id(c) && placeholder@
            == "Which forum should post be created in?"@ && channel_kind == ChannelKind::Forum
            && default_channel == v.selected_forum && min_values == 1 && max_values == 1,
        MoveOptionComponent::Thread => spec matches ComponentSpec::ChannelSelect {
            custom_id,
            placeholder,
            channel_kind,
            default_channel,
            min_values,
            max_values,
        } && custom_id@ == spec_custom_id(c) && placeholder@
            == "Which thread should messages be moved to?"@ && channel_kind
            == ChannelKind::PublicThread && default_channel == v.selected_thread && min_values == 1
            && max_values == 1,
        MoveOptionComponent::Channel => spec matches ComponentSpec::ChannelSelect {
            custom_id,
            placeholder,
            channel_kind,
            default_channel,
            min_values,
            max_values,
        } && custom_id@ == spec_custom_id(c) && placeholder@
            == "Which channel should messages be moved to?"@ && channel_kind == ChannelKind::Text
            && default_channel == v.selected_channel && min_values == 1 && max_values == 1,
        MoveOptionComponent::ExecuteButton => spec matches ComponentSpec::Button {
            custom_id,
            style,
            label,
        } && custom_id@ == spec_custom_id(c) && style == ButtonStyle::Danger && label@ == "Move"@,
        MoveOptionComponent::ChangeNameButton => spec matches ComponentSpec::Button {
            custom_id,
            style,
            label,
        } && custom_id@ == spec_custom_id(c) && style == ButtonStyle::Secondary && label@ == (
        if v.destination == MoveDestinationOption::NewForumPost {
            "Change forum post name"@
        } else {
            "Change thread name"@
        }),
        MoveOptionComponent::SetLastMessageButton => spec matches ComponentSpec::Button {
            custom_id,
            style,
            label,
        } && custom_id@ == spec_custom_id(c) && style == ButtonStyle::Secondary && label@
            == "Set last message"@,
    }
}

impl MoveOptionsDialog {
    /// How component `c` is drawn in the current state.
    pub fn create_component(&self, component: MoveOptionComponent) -> (res: ComponentSpec)
        ensures
            spec_component(self@, component, res),
    {
        let custom_id = component.custom_id();
        match component {
            MoveOptionComponent::SelectUsers => ComponentSpec::UserSelect {
                custom_id,
                placeholder: "Which users should have their messages moved?",
                default_users: self.involved_users.clone(),
                max_values: self.involved_users.len() as u8,
            },
            MoveOptionComponent::Destination => {
                let all = MoveDestinationOption::list();
                let current = chars_of(self.destination.name());
                let mut options: Vec<(&'static str, bool)> = Vec::new();
                let mut i: usize = 0;
                while i < all.len()
                    invariant
                        all@ == seq![
                            MoveDestinationOption::Channel,
                            MoveDestinationOption::NewThread,
                            MoveDestinationOption::ExistingThread,
                            MoveDestinationOption::NewForumPost,
                        ],
                        current@ == spec_option_name(self.destination),
                        0 <= i <= 4,
                        options@.len() == i,
                        forall|j: int|
                            0 <= j < i ==> {
                                let o = #[trigger] options@[j];
                                &&& o.0@ == spec_option_name(all@[j])
                                &&& o.1 == (spec_option_name(all@[j]) == spec_option_name(
                                    self.destination,
                                ))
                            },
                    decreases 4 - i,
                {
                    let name = all[i].name();
                    let selected = same_chars(&chars_of(name), &current);
                    options.push((name, selected));
                    i = i + 1;
                }
                ComponentSpec::DestinationSelect {
                    custom_id,
                    placeholder: "Where should messages be moved to?",
                    options,
                    min_values: 1,
                    max_values: 1,
                }
            },
            MoveOptionComponent::Forum => ComponentSpec::ChannelSelect {
                custom_id,
                placeholder: "Which forum should post be created in?",
                channel_kind: ChannelKind::Forum,
                default_channel: self.selected_forum,
                min_values: 1,
                max_values: 1,
            },
            MoveOptionComponent::Thread => ComponentSpec::ChannelSelect {
                custom_id,
                placeholder: "Which thread should messages be moved to?",
                channel_kind: ChannelKind::PublicThread,
                default_channel: self.selected_thread,
                min_values: 1,
                max_values: 1,
            },
            MoveOptionComponent::Channel => ComponentSpec::ChannelSelect {
                custom_id,
                placeholder: "Which channel should messages be moved to?",
                channel_kind: ChannelKind::Text,
                default_channel: self.selected_channel,
                min_values: 1,
                max_values: 1,
            },
            MoveOptionComponent::ExecuteButton => ComponentSpec::Button {
                custom_id,
                style: ButtonStyle::Danger,
                label: "Move",
            },
            MoveOptionComponent::ChangeNameButton => {
                let label = match self.destination {
                    MoveDestinationOption::NewForumPost => "Change forum post name",
                    _ => "Change thread name",
                };
                ComponentSpec::Button { custom_id, style: ButtonStyle::Secondary, label }
            },
            MoveOptionComponent::SetLastMessageButton => ComponentSpec::Button {
                custom_id,
                style: ButtonStyle::Secondary,
                label: "Set last message",
            },
        }
    }
}


// ---------------------------------------------------------------------------
// Laws
// ---------------------------------------------------------------------------

/// The rows' components one after the other.
pub open spec fn flatten_rows(g: Seq<Seq<MoveOptionComponent>>) -> Seq<MoveOptionComponent>
    decreases g.len(),
{
    if g.len() == 0 {
        seq![]
    } else {
        flatten_rows(g.drop_last()) + g.last()
    }
}

/// Laying components out in rows loses none and reorders none: read row by
/// row, the rows give back the components in their order.
pub proof fn lemma_rows_keep_components(cs: Seq<MoveOptionComponent>)
    ensures
        flatten_rows(group_rows(cs)) == cs,
    decreases cs.len(),
{
    if cs.len() > 0 {
        lemma_rows_keep_components(cs.drop_last());
        let prev = group_rows(cs.drop_last());
        let c = cs.last();
        if is_button(c) && prev.len() > 0 && is_button(prev.last().last()) {
            let g = prev.drop_last().push(prev.last().push(c));
            assert(g.drop_last() =~= prev.drop_last());
            assert(flatten_rows(g) =~= flatten_rows(prev).push(c));
        } else {
            let g = prev.push(seq![c]);
            assert(g.drop_last() =~= prev);
            assert(flatten_rows(g) =~= flatten_rows(prev).push(c));
        }
        assert(cs.drop_last().push(c) =~= cs);
    }
}

/// While the destination is an existing thread, the thread chosen is not
/// the one the move starts in.
pub open spec fn source_thread_not_chosen(v: DialogView) -> bool {
    v.destination == MoveDestinationOption::ExistingThread ==> v.selected_thread != Some(
        v.initial_channel,
    )
}

/// A new dialog does not choose the source as its existing thread.
pub proof fn lemma_new_dialog_source_thread_not_chosen(
    initial_channel: u64,
    users: Seq<u64>,
    forums: Seq<u64>,
)
    ensures
        source_thread_not_chosen(spec_new_dialog(initial_channel, users, forums)),
{
}

/// No interaction with the dialog makes it choose the thread the move
/// starts in as the existing thread to move to.
pub proof fn lemma_interaction_keeps_source_thread_unchosen(
    v: DialogView,
    component: MoveOptionComponent,
    data: InteractionData,
)
    requires
        source_thread_not_chosen(v),
    ensures
        source_thread_not_chosen(spec_after_interaction(v, component, data)),
{
}

/// Filling in a form keeps the dialog from choosing the source thread.
pub proof fn lemma_forms_keep_source_thread_unchosen(v: DialogView, name: Seq<char>, id: Option<u64>)
    requires
        source_thread_not_chosen(v),
    ensures
        source_thread_not_chosen(spec_update_set_fields(DialogView { thread_name: name, ..v })),
        source_thread_not_chosen(spec_update_set_fields(DialogView { last_message_id: id, ..v })),
{
}

/// A move never goes to an existing channel or thread that is the one it
/// starts in.
pub proof fn lemma_plan_never_targets_source(options: MoveOptions, source: u64, plan: DestinationPlan)
    requires
        spec_plan(options, source, plan),
    ensures
        plan matches DestinationPlan::Existing(d) ==> match d {
            MoveDestination::Channel(c) => c != source,
            MoveDestination::Thread { thread, delete_on_fail, .. } => thread != source
                && !delete_on_fail,
        },
{
}

/// A channel selection is refused only while the destination is a channel
/// and the selection is the channel the move starts in (a new thread may be
/// created in that channel); otherwise the first selected channel, or none
/// when nothing is selected, becomes the selected channel. Nothing else of
/// the dialog but the pending selections changes.
pub proof fn lemma_channel_selection(v: DialogView, values: Vec<u64>)
    ensures
        ({
            let r = spec_after_interaction(v, MoveOptionComponent::Channel, InteractionData::ChannelSelect(values));
            &&& r.selected_channel == if v.destination == MoveDestinationOption::Channel
                && values@.len() > 0 && values@[0] == v.initial_channel {
                v.selected_channel
            } else if values@.len() > 0 {
                Some(values@[0])
            } else {
                None
            }
            &&& r.destination == v.destination
            &&& r.selected_thread == v.selected_thread
            &&& r.selected_forum == v.selected_forum
            &&& r.selected_users == v.selected_users
            &&& r.thread_name == v.thread_name
            &&& r.last_message_id == v.last_message_id
        }),
{
}

/// A thread selection is refused only while the destination is an existing
/// thread and the selection is the thread the move starts in; otherwise the
/// first selected channel, or none, becomes the selected thread.
pub proof fn lemma_thread_selection(v: DialogView, values: Vec<u64>)
    ensures
        ({
            let r = spec_after_interaction(v, MoveOptionComponent::Thread, InteractionData::ChannelSelect(values));
            &&& r.selected_thread == if v.destination == MoveDestinationOption::ExistingThread
                && values@.len() > 0 && values@[0] == v.initial_channel {
                v.selected_thread
            } else if values@.len() > 0 {
                Some(values@[0])
            } else {
                None
            }
            &&& r.destination == v.destination
            &&& r.selected_channel == v.selected_channel
            &&& r.selected_forum == v.selected_forum
        }),
{
}

} // verus!
