//! The dashboard's state, and what every part of it does to it.
//!
//! What reaches beyond this process is not done here: it is left in
//! [`App::effects`], in the order it was asked for, and what comes of it is
//! handed back by a call.

use vstd::prelude::*;

use crate::data::SessionData;
use crate::footer::Desk;
use crate::keys::{KeyMap, KeySet};
use crate::model::{Names, key_of, Overlap, Plan, Provider, Session, Subagent, SubagentStatus};
use crate::order::{in_order, keys_of, letters, letters_of, lists_each, order_by};
use crate::preview::Capture;
use crate::rave::Rave;
use crate::reader::ChatView;
use crate::profiles::{AddAccount, Choice, Profile};
use crate::remote::{Collision, Fleet, Host};
use crate::seen::Seen;
use crate::settings::{Config, SettingWrite};
use crate::share::{Opening, ServeOptions, Serving};
use crate::tabs::Tab;
use crate::text::{after_prefix, cat, chars_of, same};

verus! {

/// What the screen is asking for.
#[derive(Debug, Clone, Copy, PartialEq, Eq, Structural)]
pub enum Mode {
    /// The table, and nothing over it.
    List,
    Help,
    Search,
    Settings,
    SortBy,
    AgeFilter,
    CostFilter,
    RowMenu,
    Launch,
    LaunchCwd,
    Hooks,
    Serve,
    ShareQr,
    SendKeys,
    RenameTab,
    SwitchTab,
    AddAccount,
    Insight,
    Conversation,
    ResumeConfirm,
    RemoteUpdateConfirm,
    DeleteConfirm,
    DeleteBlocked,
    KillConfirm,
    KillBlocked,
    QuitConfirm,
    BatchConfirm,
    BatchDeleteBlocked,
    BatchKillBlocked,
    TmuxInstall,
}

/// A column of the table.
#[derive(Debug, Clone, Copy, PartialEq, Eq, Structural)]
pub enum ColumnId {
    /// Whether an agent is at work behind it.
    Status,
    /// When it was last heard of.
    Last,
    /// The directory it works in.
    Project,
    Model,
    Cost,
    Cpu,
    Tools,
}

/// A row of the table.
#[derive(Debug, Clone, Copy, PartialEq, Eq, Structural)]
pub enum Row {
    /// A session, by its place among the sessions.
    Session(usize),
    /// A subagent, by its parent's place and its own among the parent's.
    Subagent { parent: usize, index: usize },
}

impl Row {
    /// The session the row belongs to.
    pub open spec fn owner(self) -> usize {
        match self {
            Row::Session(s) => s,
            Row::Subagent { parent, index: _ } => parent,
        }
    }

    /// The session the row belongs to.
    pub fn session(self) -> (r: usize)
        ensures
            r == self.owner(),
    {
        match self {
            Row::Session(s) => s,
            Row::Subagent { parent, index: _ } => parent,
        }
    }

    /// Whether the row is a subagent's.
    pub fn is_subagent(self) -> (r: bool)
        ensures
            r == (self is Subagent),
    {
        match self {
            Row::Session(_) => false,
            Row::Subagent { .. } => true,
        }
    }
}

/// Something said in the corner, and when.
pub struct Toast {
    pub text: String,
    pub at: u64,
}

/// What is to be done beyond this process.
pub enum Effect {
    /// Write the preferences down.
    SavePrefs,
    /// Read a session's transcript.
    LoadData(Session),
    /// Say on a multiplexer session where its tab is in the bar.
    SetOrder { name: String, at: usize },
    /// Take a client onto the session tab `tab` stands for.
    Attach { tab: usize },
    /// Write what the agents are doing onto the multiplexer's sessions.
    PublishStates,
    /// End a multiplexer session nobody here is a client of.
    KillSession { name: String, label: String },
    /// End the agent of a pane that was closed.
    KillAgent { pid: u32, label: String },
    /// Ask the multiplexer for the screen of a session.
    CaptureScreen(String),
    /// Open a link in a browser.
    OpenLink(String),
    /// Put text on the clipboard.
    Copy(String),
    /// Run the update on another machine.
    UpdateRemote(Host),
    /// Start an account's own program in a terminal.
    StartAccount { argv: Vec<String>, dir: Option<String> },
    /// Write an account's token down.
    SaveToken { name: String, token: String },
    /// Read the turns of a session's conversation before one of them, or the
    /// newest.
    FetchChat { key: String, before: Option<usize> },
    /// Put a multiplexer session on a link.
    ShareTerminal { name: String, label: String },
    /// Serve the page, through a tunnel or on this machine.
    Serve(ServeOptions),
    /// Stop serving the page.
    StopServing,
    /// Show the page what the table shows.
    Publish,
    /// Write an entry of the settings file, or take it out.
    WriteSetting(SettingWrite),
    /// Start the music.
    PlayMusic,
    /// Stop the music.
    StopMusic,
    /// Walk every transcript there is.
    Refresh,
    /// Look at the rows that are running.
    RefreshLive,
}

/// What the dashboard is showing and doing.
pub struct App {
    pub plan: Plan,
    /// This build's version.
    pub version: String,
    pub names: Names,
    /// Milliseconds since the dashboard was started.
    pub now: u64,
    pub mode: Mode,
    pub needs_redraw: bool,
    pub should_quit: bool,
    pub effects: Vec<Effect>,
    pub status: Option<(String, u64)>,
    /// Newest first.
    pub toasts: Vec<Toast>,
    // The table.
    pub sessions: Vec<Session>,
    pub visible: Vec<Row>,
    pub selected: usize,
    /// The sessions showing their subagents, by key.
    pub expanded: KeySet,
    pub desk: Desk,
    /// The sessions the filter leaves out, by key.
    pub filtered_out: KeySet,
    pub sort_col: ColumnId,
    pub sort_asc: bool,
    pub list_height: u16,
    /// The subagents whose hook said they are done, by bare id.
    pub finished_agents: KeySet,
    pub seen: Seen,
    // The bottom panels.
    pub bottom_tab: usize,
    pub panel_data: Option<SessionData>,
    pub panel_key: String,
    pub panel_stamp: String,
    pub panel_max_scroll: u16,
    pub info_scroll: u16,
    pub cost_scroll: u16,
    pub config_scroll: u16,
    pub context_scroll: u16,
    pub proc_scroll: u16,
    pub subagent_scroll: u16,
    pub tool_scroll: u16,
    pub tool_follow: bool,
    pub tool_tab: usize,
    pub tool_expanded: Option<String>,
    /// The invocation each line of the tool log belongs to.
    pub tool_owners: Vec<Option<String>>,
    // The tab bar.
    pub tabs: Vec<Tab>,
    /// Which tab is on screen: 0 is the dashboard, `n` is `tabs[n - 1]`.
    pub tab: usize,
    pub shared_at: Option<u64>,
    pub drag_tab: Option<usize>,
    /// The screen of the tab last previewed.
    pub preview: Capture,
    // Accounts.
    pub add_account: AddAccount,
    pub accounts: Vec<Profile>,
    pub launch_offer: Vec<Choice>,
    pub launch_cursor: usize,
    /// Which account of each provider a launch runs as.
    pub launch_profile: Vec<(Provider, usize)>,
    // Other machines.
    pub fleet: Fleet,
    /// What each session's agent collides with, by key.
    pub collisions: KeyMap<Collision>,
    pub spend: Spend,
    /// The conversation being read.
    pub chat: Option<ChatView>,
    // The served page.
    pub serving: Option<Serving>,
    pub share_opening: Option<Opening>,
    pub serve_error: Option<String>,
    pub config: Config,
    // The party.
    pub rave: Rave,
    /// When the dashboard was started, as a timestamp.
    pub started_at: String,
    /// The terminal has no colour to show.
    pub no_color: bool,
}

/// What all sessions have spent, by agent.
#[derive(Debug, Clone, Copy, PartialEq, Eq, Structural)]
pub struct Spend {
    pub claude: u128,
    pub others: u128,
}

/// What the first `n` sessions have spent with an agent, or with the others.
pub open spec fn spent(sessions: Seq<Session>, claude: bool, n: int) -> int
    decreases n,
{
    if n <= 0 {
        0
    } else {
        let s = sessions[n - 1];
        spent(sessions, claude, n - 1) + if (s.provider == Provider::Claude) == claude && s.total_cost is Some {
            s.total_cost->0 as int
        } else {
            0
        }
    }
}

/// Whether `spend` is what all of `sessions` have spent.
pub open spec fn adds_up(spend: Spend, sessions: Seq<Session>) -> bool {
    &&& spend.claude == spent(sessions, true, sessions.len() as int)
    &&& spend.others == spent(sessions, false, sessions.len() as int)
}

proof fn spent_on_both(here: Seq<Session>, away: Seq<Session>, claude: bool, n: int)
    requires
        0 <= n <= here.len() + away.len(),
    ensures
        spent(here + away, claude, n) == (if n <= here.len() {
            spent(here, claude, n)
        } else {
            spent(here, claude, here.len() as int) + spent(away, claude, n - here.len())
        }),
    decreases n,
{
    if n > 0 {
        spent_on_both(here, away, claude, n - 1);
        assert(spent(away, claude, 0) == 0);
        if n <= here.len() {
            assert((here + away)[n - 1] == here[n - 1]);
        } else {
            assert((here + away)[n - 1] == away[n - 1 - here.len()]);
        }
    }
}

/// Totals span machines: what is spent here and elsewhere comes to what each has
/// spent.
pub proof fn totals_span_machines(here: Seq<Session>, away: Seq<Session>, a: Spend, b: Spend, both: Spend)
    requires
        adds_up(a, here),
        adds_up(b, away),
        adds_up(both, here + away),
    ensures
        both.claude == a.claude + b.claude,
        both.others == a.others + b.others,
{
    spent_on_both(here, away, true, (here + away).len() as int);
    spent_on_both(here, away, false, (here + away).len() as int);
}

/// What all of `sessions` have spent.
pub fn compute_spend(sessions: &Vec<Session>) -> (r: Spend)
    ensures
        adds_up(r, sessions@),
{
    let mut claude: u128 = 0;
    let mut others: u128 = 0;
    let mut i: usize = 0;
    while i < sessions.len()
        invariant
            i <= sessions@.len(),
            claude == spent(sessions@, true, i as int),
            others == spent(sessions@, false, i as int),
            claude <= i * u64::MAX,
            others <= i * u64::MAX,
        decreases sessions@.len() - i,
    {
        assert(i * u64::MAX + u64::MAX == (i + 1) * u64::MAX) by (nonlinear_arith);
        assert((i + 1) * u64::MAX <= u128::MAX) by (nonlinear_arith)
            requires
                i < usize::MAX,
        ;
        if let Some(c) = sessions[i].total_cost {
            if sessions[i].provider == Provider::Claude {
                claude = claude + c as u128;
            } else {
                others = others + c as u128;
            }
        }
        i += 1;
    }
    Spend { claude, others }
}

/// What a column orders a session by.
pub open spec fn sort_key(col: ColumnId, s: Session) -> Seq<u64> {
    match col {
        ColumnId::Status => seq![
            if s.running() {
                1u64
            } else {
                0u64
            },
        ],
        ColumnId::Last => letters(s.last_active@),
        ColumnId::Project => letters(s.label_source@),
        ColumnId::Model => letters(s.model@),
        ColumnId::Cost => match s.total_cost {
            Some(c) => seq![1u64, c],
            None => seq![0u64],
        },
        ColumnId::Cpu => seq![s.cpu],
        ColumnId::Tools => seq![s.tool_count],
    }
}

fn sort_key_of(col: ColumnId, s: &Session) -> (r: Vec<u64>)
    ensures
        r@ == sort_key(col, *s),
{
    let mut key: Vec<u64> = Vec::new();
    match col {
        ColumnId::Status => {
            key.push(if s.is_running() { 1 } else { 0 });
        },
        ColumnId::Last => {
            key = letters_of(s.last_active.as_str());
        },
        ColumnId::Project => {
            key = letters_of(s.label_source.as_str());
        },
        ColumnId::Model => {
            key = letters_of(s.model.as_str());
        },
        ColumnId::Cost => match s.total_cost {
            Some(c) => {
                key.push(1);
                key.push(c);
            },
            None => {
                key.push(0);
            },
        },
        ColumnId::Cpu => {
            key.push(s.cpu);
        },
        ColumnId::Tools => {
            key.push(s.tool_count);
        },
    }
    assert(key@ =~= sort_key(col, *s));
    key
}

/// What a column orders the sessions by.
pub open spec fn sort_keys(col: ColumnId, sessions: Seq<Session>) -> Seq<Seq<u64>> {
    sessions.map_values(|s: Session| sort_key(col, s))
}

/// The rows of `n` subagents of session `parent`.
pub open spec fn child_rows(parent: usize, n: int) -> Seq<Row> {
    Seq::new(n as nat, |i: int| Row::Subagent { parent, index: i as usize })
}

/// The rows one session takes up.
pub open spec fn session_rows(
    sessions: Seq<Session>,
    expanded: Set<Seq<char>>,
    filtered_out: Set<Seq<char>>,
    i: usize,
) -> Seq<Row> {
    let s = sessions[i as int];
    if filtered_out.contains(key_of(s)) {
        Seq::empty()
    } else if expanded.contains(key_of(s)) {
        seq![Row::Session(i)] + child_rows(i, s.subagents@.len() as int)
    } else {
        seq![Row::Session(i)]
    }
}

/// The rows of the sessions `order` lists, each with its subagents directly
/// under it where it shows them.
pub open spec fn rows_of(
    sessions: Seq<Session>,
    expanded: Set<Seq<char>>,
    filtered_out: Set<Seq<char>>,
    order: Seq<usize>,
) -> Seq<Row>
    decreases order.len(),
{
    if order.len() == 0 {
        Seq::empty()
    } else {
        rows_of(sessions, expanded, filtered_out, order.drop_last()) + session_rows(
            sessions,
            expanded,
            filtered_out,
            order.last(),
        )
    }
}

/// Whether `rows` are the sessions' rows, in the order of a column.
pub open spec fn rows_match(
    sessions: Seq<Session>,
    expanded: Set<Seq<char>>,
    filtered_out: Set<Seq<char>>,
    col: ColumnId,
    asc: bool,
    rows: Seq<Row>,
) -> bool {
    exists|order: Seq<usize>|
        {
            &&& lists_each(order, sessions.len() as int)
            &&& in_order(order, sort_keys(col, sessions), asc)
            &&& rows == #[trigger] rows_of(sessions, expanded, filtered_out, order)
        }
}

/// Identity of a row across refreshes.
pub open spec fn row_name(sessions: Seq<Session>, row: Row) -> Seq<char> {
    if row.owner() >= sessions.len() {
        Seq::empty()
    } else {
        let s = sessions[row.owner() as int];
        match row {
            Row::Session(_) => key_of(s),
            Row::Subagent { parent: _, index } => if index < s.subagents@.len() {
                key_of(s) + "/"@ + s.subagents@[index as int].agent_id@
            } else {
                key_of(s)
            },
        }
    }
}

/// Where a row of that name first stands, or the number of rows.
pub open spec fn row_place(sessions: Seq<Session>, rows: Seq<Row>, name: Seq<char>) -> int
    decreases rows.len(),
{
    if rows.len() == 0 {
        0
    } else if row_name(sessions, rows[0]) == name {
        0
    } else {
        1 + row_place(sessions, rows.skip(1), name)
    }
}

/// [`row_place`] by what it finds.
pub proof fn row_place_found(sessions: Seq<Session>, rows: Seq<Row>, name: Seq<char>, i: int)
    requires
        0 <= i <= rows.len(),
        forall|j: int| 0 <= j < i ==> row_name(sessions, #[trigger] rows[j]) != name,
        i < rows.len() ==> row_name(sessions, rows[i]) == name,
    ensures
        row_place(sessions, rows, name) == i,
    decreases rows.len(),
{
    if rows.len() > 0 && i > 0 {
        let rest = rows.skip(1);
        assert(row_name(sessions, rows[0]) != name);
        assert forall|j: int| 0 <= j < i - 1 implies row_name(sessions, #[trigger] rest[j]) != name by {
            assert(rest[j] == rows[j + 1]);
        }
        if i < rows.len() {
            assert(rest[i - 1] == rows[i]);
        }
        row_place_found(sessions, rest, name, i - 1);
    }
}

/// Where the cursor is put once the rows are `rows`: on the row it was on, by
/// name, and where that is gone on the last row that is not below it.
pub open spec fn cursor_on(sessions: Seq<Session>, rows: Seq<Row>, was: Option<Seq<char>>, selected: int) -> int {
    let at = match was {
        Some(name) => row_place(sessions, rows, name),
        None => rows.len() as int,
    };
    if at < rows.len() {
        at
    } else if selected < rows.len() {
        selected
    } else if rows.len() == 0 {
        0
    } else {
        rows.len() - 1
    }
}

impl App {
    /// Whether nothing has been read, opened or asked for.
    pub open spec fn begun(&self, plan: Plan, version: String, names: Names) -> bool {
        &&& self.effects@.len() == 0 && self.toasts@.len() == 0
        &&& self.sessions@.len() == 0 && self.visible@.len() == 0
        &&& self.expanded.items@.len() == 0 && self.filtered_out.items@.len() == 0
        &&& self.finished_agents.items@.len() == 0
        &&& self.seen.marks() == (Set::<Seq<char>>::empty(), Set::<Seq<char>>::empty())
        &&& self.panel_key@.len() == 0 && self.panel_stamp@.len() == 0
        &&& self.tool_owners@.len() == 0
        &&& self.tabs@.len() == 0
        &&& self.preview.name@.len() == 0 && self.preview.screen is None && !self.preview.pending
        &&& self.add_account.name@.len() == 0 && !self.add_account.named && !self.add_account.open
        &&& self.accounts@.len() == 0 && self.launch_offer@.len() == 0 && self.launch_profile@.len() == 0
        &&& self.fleet.unknown()
        &&& self.collisions.items@.len() == 0
        &&& self.desk.untouched()
        &&& self.config.unread()
        &&& self.started_at@.len() == 0
        &&& *self == (App {
            plan,
            version,
            names,
            now: 0,
            mode: Mode::List,
            needs_redraw: true,
            should_quit: false,
            effects: self.effects,
            status: None,
            toasts: self.toasts,
            sessions: self.sessions,
            visible: self.visible,
            selected: 0,
            expanded: self.expanded,
            desk: self.desk,
            filtered_out: self.filtered_out,
            sort_col: ColumnId::Last,
            sort_asc: false,
            list_height: 0,
            finished_agents: self.finished_agents,
            seen: self.seen,
            bottom_tab: 0,
            panel_data: None,
            panel_key: self.panel_key,
            panel_stamp: self.panel_stamp,
            panel_max_scroll: 0,
            info_scroll: 0,
            cost_scroll: 0,
            config_scroll: 0,
            context_scroll: 0,
            proc_scroll: 0,
            subagent_scroll: 0,
            tool_scroll: 0,
            tool_follow: true,
            tool_tab: 0,
            tool_expanded: None,
            tool_owners: self.tool_owners,
            tabs: self.tabs,
            tab: 0,
            shared_at: None,
            drag_tab: None,
            preview: self.preview,
            add_account: self.add_account,
            accounts: self.accounts,
            launch_offer: self.launch_offer,
            launch_cursor: 0,
            launch_profile: self.launch_profile,
            fleet: self.fleet,
            collisions: self.collisions,
            spend: Spend { claude: 0, others: 0 },
            chat: None,
            serving: None,
            share_opening: None,
            serve_error: None,
            config: self.config,
            rave: Rave { heard: 0, since: None, ultracode_heard: None },
            started_at: self.started_at,
            no_color: false,
        })
    }

    /// The dashboard before anything has been read: the table, newest first, with
    /// nothing in it.
    #[verifier::rlimit(30)]
    pub fn new(plan: Plan, version: String, names: Names) -> (r: App)
        ensures
            r.begun(plan, version, names),
    {
        App {
            plan,
            version,
            names,
            now: 0,
            mode: Mode::List,
            needs_redraw: true,
            should_quit: false,
            effects: Vec::new(),
            status: None,
            toasts: Vec::new(),
            sessions: Vec::new(),
            visible: Vec::new(),
            selected: 0,
            expanded: KeySet::new(),
            desk: Desk::new(),
            filtered_out: KeySet::new(),
            sort_col: ColumnId::Last,
            sort_asc: false,
            list_height: 0,
            finished_agents: KeySet::new(),
            seen: Seen::new(),
            bottom_tab: 0,
            panel_data: None,
            panel_key: String::new(),
            panel_stamp: String::new(),
            panel_max_scroll: 0,
            info_scroll: 0,
            cost_scroll: 0,
            config_scroll: 0,
            context_scroll: 0,
            proc_scroll: 0,
            subagent_scroll: 0,
            tool_scroll: 0,
            tool_follow: true,
            tool_tab: 0,
            tool_expanded: None,
            tool_owners: Vec::new(),
            tabs: Vec::new(),
            tab: 0,
            shared_at: None,
            drag_tab: None,
            preview: Capture::new(String::new()),
            add_account: AddAccount::new(),
            accounts: Vec::new(),
            launch_offer: Vec::new(),
            launch_cursor: 0,
            launch_profile: Vec::new(),
            fleet: Fleet::new(),
            collisions: KeyMap::new(),
            spend: Spend { claude: 0, others: 0 },
            chat: None,
            serving: None,
            share_opening: None,
            serve_error: None,
            config: Config::new(),
            rave: Rave::new(),
            started_at: String::new(),
            no_color: false,
        }
    }

    /// What the cursor is on, by name.
    pub open spec fn cursor_name(&self) -> Option<Seq<char>> {
        if self.selected < self.visible@.len() {
            Some(row_name(self.sessions@, self.visible@[self.selected as int]))
        } else {
            None
        }
    }

    /// Whether the rows are the sessions' rows, in the column's order.
    pub open spec fn rows_in_order(&self) -> bool {
        rows_match(
            self.sessions@,
            self.expanded@,
            self.filtered_out@,
            self.sort_col,
            self.sort_asc,
            self.visible@,
        )
    }

    /// What [`App::refilter`] leaves of a state, with the cursor put on the row
    /// of that name.
    pub open spec fn refiltered(&self, name: Option<Seq<char>>, after: App) -> bool {
        &&& after.rows_in_order()
        &&& after.selected == cursor_on(self.sessions@, after.visible@, name, self.selected as int)
        &&& after.visible@.len() == 0 || after.selected < after.visible@.len()
        &&& after == (App { visible: after.visible, selected: after.selected, needs_redraw: true, ..*self })
    }

    /// Rebuild the rows from the sessions: filtered, in order, each session's
    /// subagents under it where it shows them. The cursor stays on the row it
    /// was on.
    pub fn refilter(&mut self)
        ensures
            old(self).refiltered(old(self).cursor_name(), *final(self)),
    {
        let name: Option<String> = if self.selected < self.visible.len() {
            Some(self.row_key(self.visible[self.selected]))
        } else {
            None
        };
        self.refilter_onto(name);
    }

    /// [`App::refilter`], with the cursor put on the row of that name.
    pub fn refilter_onto(&mut self, name: Option<String>)
        ensures
            old(self).refiltered(
                match name {
                    Some(n) => Some(n@),
                    None => None,
                },
                *final(self),
            ),
    {
        let mut keys: Vec<Vec<u64>> = Vec::new();
        let mut i: usize = 0;
        while i < self.sessions.len()
            invariant
                i <= self.sessions@.len(),
                keys@.len() == i,
                forall|j: int| 0 <= j < i ==> (#[trigger] keys@[j])@ == sort_key(self.sort_col, self.sessions@[j]),
            decreases self.sessions@.len() - i,
        {
            keys.push(sort_key_of(self.sort_col, &self.sessions[i]));
            i += 1;
        }
        assert(keys_of(keys@) =~= sort_keys(self.sort_col, self.sessions@));
        let order = order_by(&keys, self.sort_asc);
        let rows = self.list_rows(&order);
        let at: usize = self.find_row(&rows, &name);
        self.visible = rows;
        self.selected = if at < self.visible.len() {
            at
        } else if self.selected < self.visible.len() {
            self.selected
        } else if self.visible.len() == 0 {
            0
        } else {
            self.visible.len() - 1
        };
        self.needs_redraw = true;
        assert(self.visible@ == rows_of(self.sessions@, self.expanded@, self.filtered_out@, order@));
    }

    fn list_rows(&self, order: &Vec<usize>) -> (r: Vec<Row>)
        requires
            lists_each(order@, self.sessions@.len() as int),
        ensures
            r@ == rows_of(self.sessions@, self.expanded@, self.filtered_out@, order@),
    {
        let mut rows: Vec<Row> = Vec::new();
        let mut i: usize = 0;
        assert(order@.take(0) =~= Seq::<usize>::empty());
        while i < order.len()
            invariant
                i <= order@.len(),
                lists_each(order@, self.sessions@.len() as int),
                rows@ == rows_of(self.sessions@, self.expanded@, self.filtered_out@, order@.take(i as int)),
            decreases order@.len() - i,
        {
            let at: usize = order[i];
            let key = self.sessions[at].key();
            let ghost was = rows@;
            let ghost mine = session_rows(self.sessions@, self.expanded@, self.filtered_out@, at);
            proof {
                assert(order@.take(i + 1).drop_last() =~= order@.take(i as int));
                assert(order@.take(i + 1).last() == at);
            }
            if !self.filtered_out.contains(key.as_str()) {
                rows.push(Row::Session(at));
                if self.expanded.contains(key.as_str()) {
                    let n: usize = self.sessions[at].subagents.len();
                    let mut k: usize = 0;
                    while k < n
                        invariant
                            k <= n,
                            rows@ =~= was + seq![Row::Session(at)] + child_rows(at, k as int),
                        decreases n - k,
                    {
                        rows.push(Row::Subagent { parent: at, index: k });
                        k += 1;
                    }
                }
            }
            assert(rows@ =~= was + mine);
            i += 1;
        }
        assert(order@.take(i as int) =~= order@);
        rows
    }

    fn find_row(&self, rows: &Vec<Row>, name: &Option<String>) -> (r: usize)
        ensures
            r <= rows@.len(),
            match *name {
                Some(n) => r == row_place(self.sessions@, rows@, n@),
                None => r == rows@.len(),
            },
    {
        let n = match name {
            Some(n) => n,
            None => {
                return rows.len();
            },
        };
        let mut i: usize = 0;
        while i < rows.len()
            invariant
                i <= rows@.len(),
                *name == Some(*n),
                forall|j: int| 0 <= j < i ==> row_name(self.sessions@, #[trigger] rows@[j]) != n@,
            decreases rows@.len() - i,
        {
            let one = self.row_key(rows[i]);
            if same(one.as_str(), n.as_str()) {
                proof {
                    row_place_found(self.sessions@, rows@, n@, i as int);
                }
                return i;
            }
            i += 1;
        }
        proof {
            row_place_found(self.sessions@, rows@, n@, i as int);
        }
        i
    }

    /// Identity of a row across refreshes.
    ///
    /// A subagent's own id is unique only within its parent, and a session key
    /// alone cannot tell a parent from its children, so the cursor is anchored
    /// on the pair.
    pub fn row_key(&self, row: Row) -> (r: String)
        ensures
            r@ == row_name(self.sessions@, row),
    {
        let at: usize = row.session();
        if at >= self.sessions.len() {
            return String::new();
        }
        let key = self.sessions[at].key();
        match row {
            Row::Session(_) => key,
            Row::Subagent { parent: _, index } => {
                if index < self.sessions[at].subagents.len() {
                    let mut s = cat(key.as_str(), "/");
                    s.append(self.sessions[at].subagents[index].agent_id.as_str());
                    s
                } else {
                    key
                }
            },
        }
    }

    /// What [`App::set_status`] leaves of a state.
    pub open spec fn said(&self, text: Seq<char>, after: App) -> bool {
        &&& after.status is Some
        &&& (after.status->0).0@ == text
        &&& (after.status->0).1 == self.now
        &&& after.toasts@.len() == self.toasts@.len() + 1
        &&& after.toasts@[0].text@ == text
        &&& after.toasts@[0].at == self.now
        &&& after.toasts@.skip(1) == self.toasts@
        &&& after == (App { status: after.status, toasts: after.toasts, needs_redraw: true, ..*self })
    }

    /// Say something in the status line, and keep it among the toasts.
    pub fn set_status(&mut self, text: String)
        ensures
            old(self).said(text@, *final(self)),
    {
        let at: u64 = self.now;
        self.toasts.insert(0, Toast { text: text.clone(), at });
        assert(self.toasts@.skip(1) =~= old(self).toasts@);
        self.status = Some((text, at));
        self.needs_redraw = true;
    }

    /// Ask for something beyond this process.
    pub fn ask(&mut self, effect: Effect)
        ensures
            final(self).effects@ == old(self).effects@.push(effect),
            *final(self) == (App { effects: final(self).effects, ..*old(self) }),
    {
        self.effects.push(effect);
    }

    /// Ask for the preferences to be written down.
    pub fn save_prefs(&mut self)
        ensures
            final(self).effects@ == old(self).effects@.push(Effect::SavePrefs),
            *final(self) == (App { effects: final(self).effects, ..*old(self) }),
    {
        self.ask(Effect::SavePrefs);
    }
}

proof fn row_place_is_first(sessions: Seq<Session>, rows: Seq<Row>, name: Seq<char>)
    ensures
        0 <= row_place(sessions, rows, name) <= rows.len(),
        row_place(sessions, rows, name) < rows.len() ==> row_name(
            sessions,
            rows[row_place(sessions, rows, name)],
        ) == name,
        forall|j: int| 0 <= j < row_place(sessions, rows, name) ==> row_name(sessions, #[trigger] rows[j]) != name,
    decreases rows.len(),
{
    if rows.len() > 0 && row_name(sessions, rows[0]) != name {
        let rest = rows.skip(1);
        row_place_is_first(sessions, rest, name);
        let p = row_place(sessions, rows, name);
        assert forall|j: int| 0 <= j < p implies row_name(sessions, #[trigger] rows[j]) != name by {
            if j > 0 {
                assert(rest[j - 1] == rows[j]);
            }
        }
        if p < rows.len() {
            assert(rest[p - 1] == rows[p]);
        }
    }
}

/// The cursor stays on the row it was on for as long as there is such a row,
/// wherever a sort or a filter has put it.
pub proof fn the_cursor_follows_its_row(sessions: Seq<Session>, rows: Seq<Row>, name: Seq<char>, selected: int, i: int)
    requires
        0 <= i < rows.len(),
        row_name(sessions, rows[i]) == name,
    ensures
        0 <= cursor_on(sessions, rows, Some(name), selected) < rows.len(),
        row_name(sessions, rows[cursor_on(sessions, rows, Some(name), selected)]) == name,
{
    row_place_is_first(sessions, rows, name);
}

/// The cursor is on a row whenever there are rows.
pub proof fn the_cursor_is_on_a_row(sessions: Seq<Session>, rows: Seq<Row>, was: Option<Seq<char>>, selected: int)
    requires
        rows.len() > 0,
        selected >= 0,
    ensures
        0 <= cursor_on(sessions, rows, was, selected) < rows.len(),
{
    if let Some(name) = was {
        row_place_is_first(sessions, rows, name);
    }
}

/// A session that shows its subagents has them directly under it, in order.
pub proof fn subagents_sit_under_their_parent(
    sessions: Seq<Session>,
    expanded: Set<Seq<char>>,
    filtered_out: Set<Seq<char>>,
    order: Seq<usize>,
    p: int,
    i: usize,
)
    requires
        0 <= p < rows_of(sessions, expanded, filtered_out, order).len(),
        rows_of(sessions, expanded, filtered_out, order)[p] == Row::Session(i),
        expanded.contains(key_of(sessions[i as int])),
    ensures
        p + sessions[i as int].subagents@.len() < rows_of(sessions, expanded, filtered_out, order).len(),
        forall|k: int|
            0 <= k < sessions[i as int].subagents@.len() ==> #[trigger] rows_of(sessions, expanded, filtered_out, order)[p + 1
                + k] == (Row::Subagent { parent: i, index: k as usize }),
    decreases order.len(),
{
    if order.len() > 0 {
        let before = rows_of(sessions, expanded, filtered_out, order.drop_last());
        let block = session_rows(sessions, expanded, filtered_out, order.last());
        let rows = rows_of(sessions, expanded, filtered_out, order);
        if p < before.len() {
            subagents_sit_under_their_parent(sessions, expanded, filtered_out, order.drop_last(), p, i);
            assert forall|k: int| 0 <= k < sessions[i as int].subagents@.len() implies #[trigger] rows[p + 1 + k] == (
            Row::Subagent { parent: i, index: k as usize }) by {
                assert(rows[p + 1 + k] == before[p + 1 + k]);
            }
        } else {
            let q = p - before.len();
            assert(block[q] == Row::Session(i));
            assert(q == 0);
            assert(order.last() == i);
            let n = sessions[i as int].subagents@.len() as int;
            assert forall|k: int| 0 <= k < n implies #[trigger] rows[p + 1 + k] == (Row::Subagent {
                parent: i,
                index: k as usize,
            }) by {
                assert(block[1 + k] == child_rows(i, n)[k]);
            }
        }
    }
}

/// Every session the filter lets through has its row.
pub proof fn every_session_has_a_row(
    sessions: Seq<Session>,
    expanded: Set<Seq<char>>,
    filtered_out: Set<Seq<char>>,
    order: Seq<usize>,
    i: usize,
)
    requires
        lists_each(order, sessions.len() as int),
        i < sessions.len(),
        !filtered_out.contains(key_of(sessions[i as int])),
    ensures
        rows_of(sessions, expanded, filtered_out, order).contains(Row::Session(i)),
{
    crate::order::every_row_listed(order, sessions.len() as int, i as int);
    let q = choose|q: int| 0 <= q < sessions.len() && #[trigger] order[q] == i;
    listed_has_row(sessions, expanded, filtered_out, order, q);
}

proof fn listed_has_row(
    sessions: Seq<Session>,
    expanded: Set<Seq<char>>,
    filtered_out: Set<Seq<char>>,
    order: Seq<usize>,
    q: int,
)
    requires
        0 <= q < order.len(),
        !filtered_out.contains(key_of(sessions[order[q] as int])),
    ensures
        rows_of(sessions, expanded, filtered_out, order).contains(Row::Session(order[q])),
    decreases order.len(),
{
    let before = rows_of(sessions, expanded, filtered_out, order.drop_last());
    let block = session_rows(sessions, expanded, filtered_out, order.last());
    let rows = rows_of(sessions, expanded, filtered_out, order);
    if q < order.len() - 1 {
        listed_has_row(sessions, expanded, filtered_out, order.drop_last(), q);
        let p = choose|p: int| 0 <= p < before.len() && before[p] == Row::Session(order[q]);
        assert(rows[p] == before[p]);
    } else {
        assert(block[0] == Row::Session(order[q]));
        assert(rows[before.len() as int] == block[0]);
    }
}

/// Showing a session's subagents and hiding them again changes nothing.
pub proof fn toggling_twice_restores(app: App, after: App, s: Session)
    requires
        after.expanded@ == app.toggled(s),
    ensures
        after.toggled(s) == app.expanded@,
{
    assert(after.toggled(s) =~= app.expanded@);
}

/// What a session cost is counted with its own kind of agent and with no other, and
/// one whose cost is not known costs nothing.
pub proof fn a_session_is_counted_once(s: Session, a: Spend)
    requires
        adds_up(a, seq![s]),
    ensures
        s.total_cost is None ==> a.claude == 0 && a.others == 0,
        s.total_cost matches Some(c) ==> {
            &&& s.provider == Provider::Claude ==> a.claude == c && a.others == 0
            &&& s.provider != Provider::Claude ==> a.others == c && a.claude == 0
        },
{
    reveal_with_fuel(spent, 2);
}

/// The column the rows are ordered by goes one way from row to row: up, or down where
/// that was asked for. Of sessions whose cost is not known none stands among those
/// whose cost is.
pub proof fn the_column_goes_one_way(sessions: Seq<Session>, col: ColumnId, asc: bool, order: Seq<usize>, p: int, q: int)
    requires
        lists_each(order, sessions.len() as int),
        in_order(order, sort_keys(col, sessions), asc),
        0 <= p < q < order.len(),
    ensures
        ({
            let (a, b) = if asc {
                (sessions[order[p] as int], sessions[order[q] as int])
            } else {
                (sessions[order[q] as int], sessions[order[p] as int])
            };
            &&& col == ColumnId::Cost && a.total_cost is Some && b.total_cost is Some ==> a.total_cost->0
                <= b.total_cost->0
            &&& col == ColumnId::Cost && b.total_cost is None ==> a.total_cost is None
            &&& col == ColumnId::Cpu ==> a.cpu <= b.cpu
            &&& col == ColumnId::Tools ==> a.tool_count <= b.tool_count
            &&& col == ColumnId::Status ==> (a.running() ==> b.running())
            &&& col == ColumnId::Last ==> !crate::order::text_before(b.last_active@, a.last_active@)
            &&& col == ColumnId::Project ==> !crate::order::text_before(b.label_source@, a.label_source@)
            &&& col == ColumnId::Model ==> !crate::order::text_before(b.model@, a.model@)
        }),
{
    let keys = sort_keys(col, sessions);
    let (i, j) = (order[p] as int, order[q] as int);
    assert(crate::order::goes_before(keys, asc, i, j));
    let (a, b) = if asc {
        (sessions[i], sessions[j])
    } else {
        (sessions[j], sessions[i])
    };
    let (x, y) = (sort_key(col, a), sort_key(col, b));
    assert(keys[i] == sort_key(col, sessions[i]) && keys[j] == sort_key(col, sessions[j]));
    assert(crate::order::lex_lt(x, y) || x == y);
    if crate::order::lex_lt(y, x) {
        if crate::order::lex_lt(x, y) {
            crate::order::lex_transitive(x, y, x);
        }
        crate::order::lex_irreflexive(x);
    }
    assert(!crate::order::lex_lt(y, x));
    reveal_with_fuel(crate::order::lex_lt, 3);
    match col {
        ColumnId::Cost => {
            if a.total_cost is Some && b.total_cost is Some {
                assert(x[0] == 1 && y[0] == 1 && x[1] == a.total_cost->0 && y[1] == b.total_cost->0);
                assert(x.skip(1)[0] == x[1] && y.skip(1)[0] == y[1]);
            }
            if a.total_cost is Some && b.total_cost is None {
                assert(x[0] == 1 && y[0] == 0);
            }
        },
        ColumnId::Cpu => {
            assert(x[0] == a.cpu && y[0] == b.cpu);
        },
        ColumnId::Tools => {
            assert(x[0] == a.tool_count && y[0] == b.tool_count);
        },
        ColumnId::Status => {
            assert(a.running() ==> x[0] == 1);
            assert(!b.running() ==> y[0] == 0);
        },
        _ => {},
    }
}

/// A row is a session the filter lets through, or a subagent of one that shows its
/// subagents: nothing else is in the table.
pub proof fn no_other_row_is_shown(
    sessions: Seq<Session>,
    expanded: Set<Seq<char>>,
    filtered_out: Set<Seq<char>>,
    order: Seq<usize>,
    row: Row,
)
    requires
        rows_of(sessions, expanded, filtered_out, order).contains(row),
    ensures
        order.contains(row.owner()),
        !filtered_out.contains(key_of(sessions[row.owner() as int])),
        row matches Row::Subagent { parent, index } ==> expanded.contains(key_of(sessions[parent as int])) && (
        sessions[parent as int].subagents@.len() <= usize::MAX ==> index < sessions[parent as int].subagents@.len()),
    decreases order.len(),
{
    let before = rows_of(sessions, expanded, filtered_out, order.drop_last());
    let rows = rows_of(sessions, expanded, filtered_out, order);
    let p = choose|p: int| 0 <= p < rows.len() && rows[p] == row;
    if order.len() > 0 {
        let block = session_rows(sessions, expanded, filtered_out, order.last());
        if p < before.len() {
            assert(before[p] == row);
            no_other_row_is_shown(sessions, expanded, filtered_out, order.drop_last(), row);
            let k = choose|k: int| 0 <= k < order.len() - 1 && order.drop_last()[k] == row.owner();
            assert(order[k] == row.owner());
        } else {
            let q = p - before.len();
            assert(block[q] == row);
            assert(order[order.len() - 1] == order.last());
            let i = order.last();
            if q > 0 {
                let n = sessions[i as int].subagents@.len() as int;
                assert(block[q] == child_rows(i, n)[q - 1]);
            }
        }
    }
}

/// What is said is what the status says, and stands on top of what was said before,
/// with the moment it was said at.
pub proof fn what_is_said_last_is_on_top(app: App, first: Seq<char>, mid: App, second: Seq<char>, after: App)
    requires
        app.said(first, mid),
        mid.said(second, after),
    ensures
        (after.status->0).0@ == second,
        (after.status->0).1 == app.now,
        after.toasts@.len() == app.toasts@.len() + 2,
        after.toasts@[0].text@ == second,
        after.toasts@[1].text@ == first,
        after.toasts@[0].at == app.now && after.toasts@[1].at == app.now,
        after.toasts@.skip(2) == app.toasts@,
        after.sessions == app.sessions && after.effects == app.effects && after.mode == app.mode,
{
    assert(after.toasts@[1] == after.toasts@.skip(1)[0]);
    assert(after.toasts@.skip(2) =~= after.toasts@.skip(1).skip(1));
}

proof fn no_place_is_the_end(sessions: Seq<Session>, rows: Seq<Row>, name: Seq<char>)
    requires
        forall|i: int| 0 <= i < rows.len() ==> row_name(sessions, #[trigger] rows[i]) != name,
    ensures
        row_place(sessions, rows, name) == rows.len(),
    decreases rows.len(),
{
    if rows.len() > 0 {
        assert(row_name(sessions, rows[0]) != name);
        assert forall|i: int| 0 <= i < rows.skip(1).len() implies row_name(sessions, #[trigger] rows.skip(1)[i]) != name by {
            assert(rows.skip(1)[i] == rows[i + 1]);
        }
        no_place_is_the_end(sessions, rows.skip(1), name);
    }
}

/// Where the row the cursor was on is gone, the cursor stays at its place in the table,
/// and goes to the last row where the table has become shorter than that.
pub proof fn the_cursor_keeps_its_place(sessions: Seq<Session>, rows: Seq<Row>, name: Seq<char>, selected: int)
    requires
        0 <= selected,
        rows.len() > 0,
        forall|i: int| 0 <= i < rows.len() ==> row_name(sessions, #[trigger] rows[i]) != name,
    ensures
        selected < rows.len() ==> cursor_on(sessions, rows, Some(name), selected) == selected,
        selected >= rows.len() ==> cursor_on(sessions, rows, Some(name), selected) == rows.len() - 1,
{
    no_place_is_the_end(sessions, rows, name);
}

} // verus!
