//! The global menu bar: its menus, and what choosing an entry does.
use vstd::prelude::*;

verus! {

/// A choice in the menu bar.
#[derive(Debug, Clone, Copy, PartialEq, Eq, Structural)]
pub enum Message {
    File(FileMenu),
    View(ViewMenu),
}

/// The entries of the File menu.
#[derive(Debug, Clone, Copy, PartialEq, Eq, Structural)]
pub enum FileMenu {
    Open,
}

/// The entries of the View menu.
#[derive(Debug, Clone, Copy, PartialEq, Eq, Structural)]
pub enum ViewMenu {
    ImplMe,
}

impl Message {
    /// The name of the menu this choice belongs to.
    pub fn name(&self) -> (r: &'static str)
        ensures
            self is File ==> r@ == "File"@,
            self is View ==> r@ == "View"@,
    {
        match self {
            Message::File(_) => "File",
            Message::View(_) => "View",
        }
    }
}

impl FileMenu {
    /// The name shown for this entry.
    pub fn name(&self) -> (r: &'static str)
        ensures
            r@ == "Open"@,
    {
        "Open"
    }
}

impl ViewMenu {
    /// The name shown for this entry.
    pub fn name(&self) -> (r: &'static str)
        ensures
            r@ == "ImplMe"@,
    {
        "ImplMe"
    }
}

/// The menu bar's own state: whether a file is being opened.
#[derive(Debug)]
pub struct GlobalMenuBar {
    pending_file: bool,
}

impl GlobalMenuBar {
    pub closed spec fn pending(&self) -> bool {
        self.pending_file
    }

    pub fn set_pending_file(&mut self, pend_flag: bool)
        ensures
            final(self).pending() == pend_flag,
    {
        self.pending_file = pend_flag;
    }

    pub fn get_pending_file(&self) -> (r: bool)
        ensures
            r == self.pending(),
    {
        self.pending_file
    }
}

impl Default for GlobalMenuBar {
    fn default() -> (r: Self)
        ensures
            !r.pending(),
    {
        GlobalMenuBar { pending_file: false }
    }
}

/// What the application does after a menu choice.
#[derive(Debug, Clone, Copy, PartialEq, Eq, Structural)]
pub enum MenuCommand {
    /// Nothing.
    Nothing,
    /// Ask for a VCD file and load it.
    LoadVcd,
}

/// The pending flag and the command after a menu choice: opening a file asks
/// for one unless a file is already being opened, and marks a file as
/// pending; the View entry does nothing yet.
pub open spec fn menu_next(pending: bool, menu_message: Message) -> (bool, MenuCommand) {
    match menu_message {
        Message::File(_) => if pending {
            (true, MenuCommand::Nothing)
        } else {
            (true, MenuCommand::LoadVcd)
        },
        Message::View(_) => (pending, MenuCommand::Nothing),
    }
}

/// Handles a menu choice (see [`menu_next`]).
pub fn menu_update(menu_bar: &mut GlobalMenuBar, menu_message: Message) -> (r: MenuCommand)
    ensures
        (final(menu_bar).pending(), r) == menu_next(old(menu_bar).pending(), menu_message),
{
    match menu_message {
        Message::File(file_menu) => match file_menu {
            FileMenu::Open => {
                if menu_bar.get_pending_file() {
                    MenuCommand::Nothing
                } else {
                    menu_bar.set_pending_file(true);
                    MenuCommand::LoadVcd
                }
            },
        },
        Message::View(view_menu) => match view_menu {
            ViewMenu::ImplMe => MenuCommand::Nothing,
        },
    }
}

/// Choosing File, Open a second time asks for no file while the first is
/// pending: two choices in a row ask for at most one file.
pub proof fn lemma_open_is_not_repeated(pending: bool)
    ensures
        menu_next(menu_next(pending, Message::File(FileMenu::Open)).0, Message::File(FileMenu::Open)).1
            == MenuCommand::Nothing,
{
}

/// What happens to the menu bar in a run of the application: a menu choice,
/// or the end of a load (the pending flag is cleared when the database
/// opened or failed to).
pub enum MenuEvent {
    Choice(Message),
    LoadFinished,
}

/// The pending flag after one event.
pub open spec fn menu_event_next(pending: bool, event: MenuEvent) -> bool {
    match event {
        MenuEvent::Choice(m) => menu_next(pending, m).0,
        MenuEvent::LoadFinished => false,
    }
}

/// The pending flag before event `i` of a run that starts with no file
/// pending.
pub open spec fn pending_before(events: Seq<MenuEvent>, i: nat) -> bool
    decreases i,
{
    if i == 0 {
        false
    } else {
        menu_event_next(pending_before(events, (i - 1) as nat), events[i - 1])
    }
}

/// The command event `i` of a run gives.
pub open spec fn command_at(events: Seq<MenuEvent>, i: nat) -> MenuCommand {
    match events[i as int] {
        MenuEvent::Choice(m) => menu_next(pending_before(events, i), m).1,
        MenuEvent::LoadFinished => MenuCommand::Nothing,
    }
}

proof fn lemma_pending_stays(events: Seq<MenuEvent>, a: nat, b: nat)
    requires
        a <= b <= events.len(),
        pending_before(events, a),
        forall|k: int| a <= k < b ==> !(#[trigger] events[k] is LoadFinished),
    ensures
        pending_before(events, b),
    decreases b,
{
    if b > a {
        lemma_pending_stays(events, a, (b - 1) as nat);
    }
}

/// At most one load is outstanding: between two choices that ask for a
/// file, a load has finished.
pub proof fn lemma_one_load_outstanding(events: Seq<MenuEvent>, i: nat, j: nat)
    requires
        i < j < events.len(),
        command_at(events, i) == MenuCommand::LoadVcd,
        command_at(events, j) == MenuCommand::LoadVcd,
    ensures
        exists|k: int| i < k < j && #[trigger] events[k] is LoadFinished,
{
    if forall|k: int| i < k < j ==> !(#[trigger] events[k] is LoadFinished) {
        assert(pending_before(events, i + 1));
        lemma_pending_stays(events, i + 1, j);
        assert(false);
    }
}

} // verus!
