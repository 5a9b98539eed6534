//! The status bar item.
//!
//! Zed surfaces LSP progress in its status bar, which is the closest thing an
//! extension has to a status indicator of its own. The item is begun when the
//! server starts and ended when it stops, so the address stays visible for as
//! long as the server is up.
//!
//! Each distinct piece of status text gets its own token, because the text a
//! client displays is the title that a progress item begins with: a later
//! report only carries a secondary message, which Zed appends after the title
//! rather than replacing it.

use vstd::prelude::*;

use crate::number::{decimal, decimal_of};
use crate::server::{LiveServer, LiveServerModel, Status, StatusModel};
use crate::text::{join, joined, lemma_texts_push, owned, same_text, texts};

verus! {

/// Prefix for the progress tokens used to drive the status bar item.
pub const PROGRESS_TOKEN_PREFIX: &'static str = "live-reload/status";

/// Something to tell the editor.
pub enum Notice {
    /// End the progress item with this token.
    EndProgress(String),
    /// Create a progress item with this token, and begin it with this title.
    BeginProgress { token: String, title: String },
    /// Write a line to the log.
    Log(String),
    /// Show a warning.
    Warn(String),
    /// Show a notification.
    Inform(String),
}

/// What a notice says.
pub enum NoticeModel {
    EndProgress(Seq<char>),
    BeginProgress { token: Seq<char>, title: Seq<char> },
    Log(Seq<char>),
    Warn(Seq<char>),
    Inform(Seq<char>),
}

impl View for Notice {
    type V = NoticeModel;

    open spec fn view(&self) -> NoticeModel {
        match self {
            Notice::EndProgress(token) => NoticeModel::EndProgress(token@),
            Notice::BeginProgress { token, title } => NoticeModel::BeginProgress {
                token: token@,
                title: title@,
            },
            Notice::Log(text) => NoticeModel::Log(text@),
            Notice::Warn(text) => NoticeModel::Warn(text@),
            Notice::Inform(text) => NoticeModel::Inform(text@),
        }
    }
}

/// What a list of notices says.
pub open spec fn notices(list: Seq<Notice>) -> Seq<NoticeModel> {
    Seq::new(list.len(), |i: int| list[i]@)
}

/// Pushing a notice pushes what it says.
pub broadcast proof fn lemma_notices_push(list: Seq<Notice>, notice: Notice)
    ensures
        #[trigger] notices(list.push(notice)) == notices(list).push(notice@),
{
    assert(notices(list.push(notice)) =~= notices(list).push(notice@));
}

/// The progress item on screen.
pub struct StatusItem {
    token: String,
    text: String,
}

/// The status bar: what is on screen, and the number of the next token.
pub struct StatusBar {
    current: Option<StatusItem>,
    serial: u64,
}

/// What is on screen, in mathematical terms.
pub struct StatusItemModel {
    pub token: Seq<char>,
    pub text: Seq<char>,
}

/// The status bar in mathematical terms.
pub struct StatusBarModel {
    pub current: Option<StatusItemModel>,
    pub serial: u64,
}

impl View for StatusBar {
    type V = StatusBarModel;

    closed spec fn view(&self) -> StatusBarModel {
        StatusBarModel {
            current: match self.current {
                Some(item) => Some(StatusItemModel { token: item.token@, text: item.text@ }),
                None => None,
            },
            serial: self.serial,
        }
    }
}

/// The token with this number.
pub open spec fn token_text(serial: u64) -> Seq<char> {
    PROGRESS_TOKEN_PREFIX@ + "/"@ + decimal(serial as nat)
}

/// The status bar without an item, and what to tell the editor.
pub open spec fn bar_cleared(bar: StatusBarModel) -> (StatusBarModel, Seq<NoticeModel>) {
    match bar.current {
        Some(item) => (
            StatusBarModel { current: None, serial: bar.serial },
            seq![NoticeModel::EndProgress(item.token)],
        ),
        None => (bar, Seq::empty()),
    }
}

/// The status bar with this text, and what to tell the editor. Where the
/// setting is off, whatever is on screen goes.
pub open spec fn bar_shown(
    bar: StatusBarModel,
    enabled: bool,
    text: Seq<char>,
) -> (StatusBarModel, Seq<NoticeModel>) {
    if !enabled {
        bar_cleared(bar)
    } else {
        let token = token_text(bar.serial);
        let after = StatusBarModel {
            current: Some(StatusItemModel { token, text }),
            serial: bar.serial.wrapping_add(1),
        };
        let begin = NoticeModel::BeginProgress { token, title: text };
        match bar.current {
            Some(item) => if item.text == text {
                (bar, Seq::empty())
            } else {
                (after, seq![NoticeModel::EndProgress(item.token), begin])
            },
            None => (after, seq![begin]),
        }
    }
}

impl StatusBar {
    /// A status bar with nothing on it.
    pub fn new() -> (r: StatusBar)
        ensures
            r@ == (StatusBarModel { current: None, serial: 0 }),
    {
        StatusBar { current: None, serial: 0 }
    }

    /// Shows or updates the status bar item.
    ///
    /// Changing the text ends the current progress item and begins a fresh one,
    /// since the title is fixed for the life of a token and the title is what
    /// gets displayed.
    pub fn show(&mut self, enabled: bool, text: &str) -> (r: Vec<Notice>)
        ensures
            (final(self)@, notices(r@)) == bar_shown(old(self)@, enabled, text@),
    {
        if !enabled {
            return self.clear();
        }
        let mut out: Vec<Notice> = Vec::new();
        if let Some(item) = &self.current {
            if same_text(item.text.as_str(), text) {
                assert(notices(out@) =~= Seq::<NoticeModel>::empty());
                return out;
            }
            out.push(Notice::EndProgress(owned(item.token.as_str())));
        }
        let mut token = owned(PROGRESS_TOKEN_PREFIX);
        token.append("/");
        token.append(decimal_of(self.serial).as_str());
        out.push(Notice::BeginProgress { token: owned(token.as_str()), title: owned(text) });
        self.current = Some(StatusItem { token, text: owned(text) });
        self.serial = self.serial.wrapping_add(1);
        assert(notices(out@) =~= bar_shown(old(self)@, enabled, text@).1);
        out
    }

    /// Takes the item off the status bar.
    pub fn clear(&mut self) -> (r: Vec<Notice>)
        ensures
            (final(self)@, notices(r@)) == bar_cleared(old(self)@),
    {
        let mut out: Vec<Notice> = Vec::new();
        if let Some(item) = &self.current {
            out.push(Notice::EndProgress(owned(item.token.as_str())));
        }
        self.current = None;
        assert(notices(out@) =~= bar_cleared(old(self)@).1);
        out
    }
}

/* -------------------------------------------------------------------- ports */

/// The ports of the servers that are running.
pub open spec fn running_ports(servers: Seq<LiveServerModel>) -> Seq<u16>
    decreases servers.len(),
{
    if servers.len() == 0 {
        Seq::empty()
    } else {
        match servers.last().status {
            StatusModel::Running { host, port } => running_ports(servers.drop_last()).push(port),
            StatusModel::Stopped => running_ports(servers.drop_last()),
        }
    }
}

/// Ports in ascending order with one more.
pub open spec fn port_filed(ports: Seq<u16>, port: u16) -> Seq<u16>
    decreases ports.len(),
{
    if ports.len() > 0 && port < ports.last() {
        port_filed(ports.drop_last(), port).push(ports.last())
    } else {
        ports.push(port)
    }
}

/// Ports in ascending order.
pub open spec fn ports_sorted(ports: Seq<u16>) -> Seq<u16>
    decreases ports.len(),
{
    if ports.len() == 0 {
        Seq::empty()
    } else {
        port_filed(ports_sorted(ports.drop_last()), ports.last())
    }
}

/// Ports as texts.
pub open spec fn port_texts(ports: Seq<u16>) -> Seq<Seq<char>> {
    Seq::new(ports.len(), |i: int| decimal(ports[i] as nat))
}

/// What the status bar says about the servers that are running, if any is.
pub open spec fn address_line(servers: Seq<LiveServerModel>) -> Option<Seq<char>> {
    let ports = running_ports(servers);
    if ports.len() == 0 {
        None
    } else {
        Some("Live Reload :"@ + join(port_texts(ports_sorted(ports)), ", "@))
    }
}

/// What a list of servers is like.
pub open spec fn server_models(servers: Seq<LiveServer>) -> Seq<LiveServerModel> {
    Seq::new(servers.len(), |i: int| servers[i]@)
}

proof fn lemma_port_filed(ports: Seq<u16>, port: u16, at: int)
    requires
        0 <= at <= ports.len(),
        forall|k: int| at <= k < ports.len() ==> port < #[trigger] ports[k],
        at > 0 ==> port >= ports[at - 1],
    ensures
        port_filed(ports, port) == ports.insert(at, port),
    decreases ports.len(),
{
    if at == ports.len() {
        assert(ports.insert(at, port) =~= ports.push(port));
    } else {
        let front = ports.drop_last();
        assert(port < ports[ports.len() - 1]);
        assert forall|k: int| at <= k < front.len() implies port < #[trigger] front[k] by {
            assert(front[k] == ports[k]);
        }
        lemma_port_filed(front, port, at);
        assert(front.insert(at, port).push(ports.last()) =~= ports.insert(at, port));
    }
}

fn sorted_running_ports(servers: &Vec<LiveServer>) -> (r: Vec<u16>)
    ensures
        r@ == ports_sorted(running_ports(server_models(servers@))),
{
    let mut out: Vec<u16> = Vec::new();
    let ghost all = server_models(servers@);
    assert(all.take(0) =~= Seq::<LiveServerModel>::empty());
    for i in 0..servers.len()
        invariant
            all == server_models(servers@),
            out@ == ports_sorted(running_ports(all.take(i as int))),
    {
        proof {
            assert(all.take(i + 1).drop_last() =~= all.take(i as int));
            assert(all.take(i + 1).last() == servers@[i as int]@);
        }
        if let Status::Running { host: _, port } = servers[i].status() {
            let mut at: usize = out.len();
            while at > 0 && port < out[at - 1]
                invariant
                    at <= out@.len(),
                    forall|k: int| at <= k < out@.len() ==> port < #[trigger] out@[k],
                decreases at,
            {
                at = at - 1;
            }
            let ghost before = running_ports(all.take(i as int));
            proof {
                lemma_port_filed(out@, port, at as int);
                assert(before.push(port).drop_last() =~= before);
            }
            out.insert(at, port);
        }
    }
    assert(all.take(servers.len() as int) =~= all);
    out
}

/// Words what the status bar says about the servers that are running.
pub fn status_line(servers: &Vec<LiveServer>) -> (r: Option<String>)
    ensures
        crate::config::maybe(r) == address_line(server_models(servers@)),
{
    let ports = sorted_running_ports(servers);
    proof {
        lemma_sorted_len(running_ports(server_models(servers@)));
    }
    if ports.len() == 0 {
        return None;
    }
    let mut parts: Vec<String> = Vec::new();
    let ghost all = port_texts(ports@);
    for i in 0..ports.len()
        invariant
            all == port_texts(ports@),
            texts(parts@) == all.take(i as int),
    {
        broadcast use lemma_texts_push;

        parts.push(decimal_of(ports[i] as u64));
        assert(all.take(i as int).push(all[i as int]) =~= all.take(i + 1));
    }
    assert(all.take(ports.len() as int) =~= all);
    let mut out = owned("Live Reload :");
    out.append(joined(&parts, ", ").as_str());
    Some(out)
}

proof fn lemma_filed_len(ports: Seq<u16>, port: u16)
    ensures
        port_filed(ports, port).len() == ports.len() + 1,
    decreases ports.len(),
{
    if ports.len() > 0 && port < ports.last() {
        lemma_filed_len(ports.drop_last(), port);
    }
}

proof fn lemma_sorted_len(ports: Seq<u16>)
    ensures
        ports_sorted(ports).len() == ports.len(),
    decreases ports.len(),
{
    if ports.len() > 0 {
        lemma_sorted_len(ports.drop_last());
        lemma_filed_len(ports_sorted(ports.drop_last()), ports.last());
    }
}

/* --------------------------------------------------------------------- laws */

/// What was asked for is on screen afterwards, if the setting is on, and
/// nothing is if it is off.
pub proof fn law_the_bar_shows_what_was_asked(bar: StatusBarModel, enabled: bool, text: Seq<char>)
    ensures
        match bar_shown(bar, enabled, text).0.current {
            Some(item) => enabled && item.text == text,
            None => !enabled,
        },
{
}

/// No item is left behind: whatever was on screen and is not any more has been
/// ended, and only that.
pub proof fn law_every_item_is_ended(bar: StatusBarModel, enabled: bool, text: Seq<char>)
    ensures
        ({
            let (after, told) = bar_shown(bar, enabled, text);
            &&& (bar.current is Some && after.current != bar.current) ==> told.contains(
                NoticeModel::EndProgress(bar.current->0.token),
            )
            &&& after.current == bar.current ==> told.len() == 0
        }),
{
    let (after, told) = bar_shown(bar, enabled, text);
    if bar.current is Some && after.current != bar.current {
        assert(told[0] == NoticeModel::EndProgress(bar.current->0.token));
    }
    if enabled {
        if let Some(item) = bar.current {
            if item.text != text {
                assert(after.current->0.text != bar.current->0.text);
            }
        }
    }
}

/// Every new item has a token of its own: two tokens with different numbers
/// differ.
pub proof fn law_tokens_are_distinct(a: u64, b: u64)
    requires
        a != b,
    ensures
        token_text(a) != token_text(b),
{
    let lead = PROGRESS_TOKEN_PREFIX@ + "/"@;
    crate::number::lemma_decimal(a as nat);
    crate::number::lemma_decimal(b as nat);
    assert(token_text(a).skip(lead.len() as int) =~= decimal(a as nat));
    assert(token_text(b).skip(lead.len() as int) =~= decimal(b as nat));
}

/// The ports on the status bar are in ascending order.
pub proof fn law_ports_ascend(ports: Seq<u16>)
    ensures
        forall|i: int, j: int|
            0 <= i < j < ports_sorted(ports).len() ==> #[trigger] ports_sorted(ports)[i]
                <= #[trigger] ports_sorted(ports)[j],
        ports_sorted(ports).to_multiset() == ports.to_multiset(),
    decreases ports.len(),
{
    broadcast use vstd::seq_lib::group_to_multiset_ensures;

    if ports.len() > 0 {
        law_ports_ascend(ports.drop_last());
        lemma_filed_ascends(ports_sorted(ports.drop_last()), ports.last());
        assert(ports =~= ports.drop_last().push(ports.last()));
    } else {
        assert(ports_sorted(ports) =~= ports);
    }
}

proof fn lemma_filed_ascends(ports: Seq<u16>, port: u16)
    requires
        forall|i: int, j: int|
            0 <= i < j < ports.len() ==> #[trigger] ports[i] <= #[trigger] ports[j],
    ensures
        forall|i: int, j: int|
            0 <= i < j < port_filed(ports, port).len() ==> #[trigger] port_filed(ports, port)[i]
                <= #[trigger] port_filed(ports, port)[j],
        port_filed(ports, port).to_multiset() == ports.to_multiset().insert(port),
        forall|i: int|
            0 <= i < port_filed(ports, port).len() ==> #[trigger] port_filed(ports, port)[i] <= (
            if ports.len() > 0 && port < ports.last() {
                ports.last()
            } else {
                port
            }),
    decreases ports.len(),
{
    broadcast use vstd::seq_lib::group_to_multiset_ensures;

    let all = port_filed(ports, port);
    if ports.len() > 0 && port < ports.last() {
        let front = ports.drop_last();
        assert forall|i: int, j: int| 0 <= i < j < front.len() implies #[trigger] front[i]
            <= #[trigger] front[j] by {
            assert(front[i] == ports[i] && front[j] == ports[j]);
        }
        lemma_filed_ascends(front, port);
        let inner = port_filed(front, port);
        let last = ports[ports.len() - 1];
        if front.len() > 0 {
            assert(ports[front.len() - 1] <= ports[ports.len() - 1]);
        }
        assert forall|i: int| 0 <= i < all.len() implies #[trigger] all[i] <= last by {
            if i < inner.len() {
                assert(all[i] == inner[i]);
            }
        }
        assert forall|i: int, j: int| 0 <= i < j < all.len() implies #[trigger] all[i]
            <= #[trigger] all[j] by {
            if j < inner.len() {
                assert(all[i] == inner[i] && all[j] == inner[j]);
            } else {
                assert(all[j] == last);
            }
        }
        assert(ports =~= front.push(last));
        assert(all.to_multiset() =~= ports.to_multiset().insert(port));
    } else {
        assert forall|i: int, j: int| 0 <= i < j < all.len() implies #[trigger] all[i]
            <= #[trigger] all[j] by {
            assert(all[i] == ports[i]);
            if j < ports.len() {
                assert(all[j] == ports[j]);
            } else if i < ports.len() - 1 {
                assert(ports[i] <= ports[ports.len() - 1]);
            }
        }
        assert forall|i: int| 0 <= i < all.len() implies #[trigger] all[i] <= port by {
            if i < ports.len() - 1 {
                assert(ports[i] <= ports[ports.len() - 1]);
                assert(all[i] == ports[i]);
            }
        }
    }
}

} // verus!
