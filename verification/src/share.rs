//! Handing a terminal to someone else: the shared link and the served page.
//!
//! Two things that read as one to the user and share the same spinner: one puts
//! a live pane on a link, the other publishes the dashboard. Both are slow, and
//! both produce a link that goes to the clipboard rather than to the screen: a
//! status line is read over your shoulder and survives into a screenshot.

use vstd::prelude::*;

use crate::app::{App, Effect};
use crate::model::Plan;
use crate::remote::Host;
use crate::text::cat;

verus! {

/// The spinner's alphabet, shared by everything that has to keep saying it is
/// alive.
pub const FRAMES: [char; 10] = ['⠋', '⠙', '⠹', '⠸', '⠼', '⠴', '⠦', '⠧', '⠇', '⠏'];

/// The spinner's frame after `ms` milliseconds: one for each tenth of a second.
pub open spec fn frame_at(ms: int) -> char {
    FRAMES@[ms / 100 % 10]
}

/// A tunnel being opened, and when that began.
///
/// The moment is what the spinner is drawn from. A frame counter would have to
/// be advanced by whoever happens to redraw.
pub struct Opening {
    pub since: u64,
}

impl Opening {
    /// The spinner's frame at `now`.
    pub fn frame(&self, now: u64) -> (r: char)
        ensures
            r == frame_at(if now >= self.since {
                now - self.since
            } else {
                0
            }),
    {
        spinner_frame(now.saturating_sub(self.since))
    }
}

/// The same spinner, for a wait that is not an [`Opening`]: `now` is read off one
/// clock, so that every spinner on screen ticks together.
pub fn spinner_frame(now: u64) -> (r: char)
    ensures
        r == frame_at(now as int),
{
    let i: usize = (now / 100 % 10) as usize;
    FRAMES[i]
}

/// A page being served.
pub struct Serving {
    pub local: String,
    pub public: Option<String>,
    /// Whether whoever opens the page can type at the agents.
    pub actions: bool,
    /// The link that only watches, where there is one.
    pub readonly: String,
}

/// What a page is served with.
pub struct ServeOptions {
    pub tunnel: bool,
    pub plan: Plan,
    /// Whether the page walks the disk itself. It never does: it is fed from the
    /// rows the dashboard has, since two readers could disagree.
    pub scan: bool,
    pub hosts: Vec<Host>,
}

/// What the thread opening a tunnel says.
pub enum Tunnel {
    /// It is still at it.
    Pending,
    Done(Result<Serving, String>),
    /// It went without answering.
    Gone,
}

/// A link onto a live terminal.
pub struct Share {
    /// The link that grants input.
    pub operator: Option<String>,
    pub pin: Option<String>,
}

/// What is said of a share.
pub open spec fn share_words(label: Seq<char>, pin: Option<String>, reachable: bool) -> Seq<char> {
    "Sharing "@ + label + " — operator link copied"@ + (match pin {
        Some(p) => " · pin "@ + p@,
        None => ""@,
    }) + (if reachable {
        ""@
    } else {
        " · this machine only"@
    })
}

/// Where a page that is served is to be found.
pub open spec fn where_to(serving: Serving) -> Seq<char> {
    if serving.public is Some {
        "on the internet"@
    } else {
        "on this machine"@
    }
}

impl App {
    /// Ask for the selected agent's terminal to be put on a link.
    ///
    /// `holding` is the multiplexer session that holds the selected agent's
    /// process. Only an agent in a multiplexer can be shared: any other is on no
    /// terminal a second viewer can be pointed at.
    pub fn share_selected(&mut self, holding: Option<String>)
        ensures
            match old(self).session_at() {
                None => *final(self) == *old(self),
                Some(s) => match (s.pid(), holding) {
                    (None, _) => old(self).said("Selected session has no local process"@, *final(self)),
                    (Some(_), None) => old(self).said(
                        "Only an agent cctop put in a multiplexer can be shared"@,
                        *final(self),
                    ),
                    (Some(_), Some(name)) => {
                        &&& *final(self) == (App { effects: final(self).effects, ..*old(self) })
                        &&& final(self).effects@.len() == old(self).effects@.len() + 1
                        &&& final(self).effects@.drop_last() == old(self).effects@
                        &&& final(self).effects@.last() matches Effect::ShareTerminal { name: n, label }
                        &&& n@ == name@
                        &&& label@ == s.label()
                    },
                },
            },
    {
        let label: String;
        match self.selected_session() {
            None => {
                return;
            },
            Some(s) => {
                label = s.display_label().to_owned();
                if s.root_pid().is_none() {
                    self.set_status("Selected session has no local process".to_owned());
                    return;
                }
            },
        }
        match holding {
            None => {
                self.set_status("Only an agent cctop put in a multiplexer can be shared".to_owned());
            },
            Some(name) => {
                self.ask(Effect::ShareTerminal { name, label });
                assert(self.effects@.drop_last() =~= old(self).effects@);
            },
        }
    }

    /// Take the answer to a terminal being put on a link, and whether the link
    /// works from beyond this machine.
    ///
    /// The operator link goes to the clipboard and never to the screen: it grants
    /// input to a live agent. The pairing code is shown, since it is worth
    /// nothing without the link.
    pub fn shared(&mut self, label: &str, answer: Result<(Share, bool), String>)
        ensures
            match answer {
                Ok((share, reachable)) => match share.operator {
                    Some(link) => {
                        &&& final(self).effects@ == old(self).effects@.push(Effect::Copy(link))
                        &&& (App { effects: final(self).effects, ..*old(self) }).said(
                            share_words(label@, share.pin, reachable),
                            *final(self),
                        )
                    },
                    None => old(self).said("Could not share "@ + label@ + ": no operator link"@, *final(self)),
                },
                Err(why) => old(self).said("Could not share "@ + label@ + ": "@ + why@, *final(self)),
            },
    {
        match answer {
            Ok((share, reachable)) => match share.operator {
                Some(link) => {
                    self.ask(Effect::Copy(link));
                    let mut s = cat("Sharing ", label);
                    s.append(" — operator link copied");
                    match share.pin {
                        Some(p) => {
                            let pin = cat(" · pin ", p.as_str());
                            s.append(pin.as_str());
                        },
                        None => {
                            s.append("");
                        },
                    }
                    s.append(if reachable { "" } else { " · this machine only" });
                    self.set_status(s);
                },
                None => {
                    let mut s = cat("Could not share ", label);
                    s.append(": no operator link");
                    self.set_status(s);
                },
            },
            Err(why) => {
                let mut s = cat("Could not share ", label);
                s.append(": ");
                s.append(why.as_str());
                self.set_status(s);
            },
        }
    }

    /// Whether the last thing asked for is the page, from the rows here.
    pub open spec fn asked_to_serve(&self, tunnel: bool, after: App) -> bool {
        &&& after.effects@.len() == self.effects@.len() + 1
        &&& after.effects@.drop_last() == self.effects@
        &&& after.effects@.last() matches Effect::Serve(options)
        &&& options.tunnel == tunnel
        &&& options.plan == self.plan
        &&& !options.scan
        &&& options.hosts@ == self.fleet.hosts@
    }

    /// Ask for the table to be served to a browser.
    ///
    /// `tunnel` is the difference between a link that works on this machine and
    /// one that works from a phone. One tunnel is opened at a time: a second
    /// request while the first is still dialling would throw the first away.
    pub fn start_serving(&mut self, tunnel: bool)
        ensures
            ({
                let cleared = App { serve_error: None, ..*old(self) };
                if !tunnel {
                    &&& old(self).asked_to_serve(false, *final(self))
                    &&& *final(self) == (App { effects: final(self).effects, ..cleared })
                } else if old(self).share_opening is Some {
                    *final(self) == cleared
                } else {
                    &&& old(self).asked_to_serve(true, *final(self))
                    &&& (App {
                        effects: final(self).effects,
                        share_opening: Some(Opening { since: old(self).now }),
                        ..cleared
                    }).said("Opening a tunnel to trycloudflare…"@, *final(self))
                }
            }),
    {
        self.serve_error = None;
        if tunnel && self.share_opening.is_some() {
            return;
        }
        let options = ServeOptions { tunnel, plan: self.plan, scan: false, hosts: copy_hosts(&self.fleet.hosts) };
        self.ask(Effect::Serve(options));
        assert(self.effects@.drop_last() =~= old(self).effects@);
        if tunnel {
            self.share_opening = Some(Opening { since: self.now });
            self.set_status("Opening a tunnel to trycloudflare…".to_owned());
        }
    }

    /// Take the answer to the page being served on this machine.
    pub fn served(&mut self, answer: Result<Serving, String>)
        ensures
            match answer {
                Ok(serving) => {
                    &&& final(self).effects@ == old(self).effects@.push(Effect::Publish)
                    &&& (App { effects: final(self).effects, serving: Some(serving), ..*old(self) }).said(
                        "Serving "@ + where_to(serving) + " — B for the link"@,
                        *final(self),
                    )
                },
                Err(why) => (App { serve_error: Some(why), ..*old(self) }).said("Could not serve: "@ + why@, *final(self)),
            },
    {
        match answer {
            Ok(serving) => {
                self.ask(Effect::Publish);
                let mut s = cat(
                    "Serving ",
                    if serving.public.is_some() {
                        "on the internet"
                    } else {
                        "on this machine"
                    },
                );
                s.append(" — B for the link");
                self.serving = Some(serving);
                self.set_status(s);
            },
            Err(why) => {
                let s = cat("Could not serve: ", why.as_str());
                self.serve_error = Some(why);
                self.set_status(s);
            },
        }
    }

    /// Take the tunnel from the thread opening one, if it has finished.
    ///
    /// Returns whether the screen has changed, which, while one is in flight, is
    /// every tick: the spinner is what says that nothing hangs.
    pub fn tick_share(&mut self, heard: Tunnel) -> (r: bool)
        ensures
            r == (old(self).share_opening is Some),
            ({
                let done = App { share_opening: None, ..*old(self) };
                if old(self).share_opening is None {
                    *final(self) == *old(self)
                } else {
                    match heard {
                        Tunnel::Pending => *final(self) == *old(self),
                        Tunnel::Done(Ok(serving)) => {
                            &&& final(self).effects@ == old(self).effects@.push(Effect::Publish)
                            &&& (App { effects: final(self).effects, serving: Some(serving), ..done }).said(
                                "On the internet — click the link, or B to copy it"@,
                                *final(self),
                            )
                        },
                        Tunnel::Done(Err(why)) => done.no_tunnel(why@, *final(self)),
                        Tunnel::Gone => done.no_tunnel("the tunnel gave no answer"@, *final(self)),
                    }
                }
            }),
    {
        if self.share_opening.is_none() {
            return false;
        }
        let done = match heard {
            Tunnel::Pending => {
                return true;
            },
            Tunnel::Done(done) => done,
            Tunnel::Gone => Err("the tunnel gave no answer".to_owned()),
        };
        self.share_opening = None;
        match done {
            Ok(serving) => {
                self.ask(Effect::Publish);
                self.serving = Some(serving);
                self.set_status("On the internet — click the link, or B to copy it".to_owned());
            },
            Err(why) => {
                let s = cat("Could not open a tunnel: ", why.as_str());
                self.serve_error = Some(why);
                self.set_status(s);
            },
        }
        true
    }

    /// What a tunnel that did not open leaves of a state.
    pub open spec fn no_tunnel(&self, why: Seq<char>, after: App) -> bool {
        &&& after.serve_error is Some
        &&& (after.serve_error->0)@ == why
        &&& (App { serve_error: after.serve_error, ..*self }).said("Could not open a tunnel: "@ + why, after)
    }

    /// Stop serving, which takes back every link handed out.
    pub fn stop_serving(&mut self)
        ensures
            if old(self).serving is None {
                *final(self) == *old(self)
            } else {
                &&& final(self).effects@ == old(self).effects@.push(Effect::StopServing)
                &&& (App { effects: final(self).effects, serving: None, ..*old(self) }).said(
                    "Stopped serving — the links no longer answer"@,
                    *final(self),
                )
            },
    {
        if self.serving.is_none() {
            return;
        }
        self.serving = None;
        self.ask(Effect::StopServing);
        self.set_status("Stopped serving — the links no longer answer".to_owned());
    }

    /// Show the page whatever the table is showing.
    pub fn feed_serving(&mut self)
        ensures
            *final(self) == (App { effects: final(self).effects, ..*old(self) }),
            final(self).effects@ == (if old(self).serving is Some {
                old(self).effects@.push(Effect::Publish)
            } else {
                old(self).effects@
            }),
    {
        if self.serving.is_some() {
            self.ask(Effect::Publish);
        }
    }
}

fn copy_hosts(v: &Vec<Host>) -> (r: Vec<Host>)
    ensures
        r@ == v@,
{
    let mut out: Vec<Host> = Vec::new();
    let mut i: usize = 0;
    while i < v.len()
        invariant
            i <= v@.len(),
            out@ == v@.take(i as int),
        decreases v@.len() - i,
    {
        out.push(v[i].clone());
        assert(out@ =~= v@.take(i + 1));
        i += 1;
    }
    assert(v@.take(i as int) =~= v@);
    out
}

/// The spinner comes round every second.
pub proof fn the_spinner_comes_round(ms: int)
    requires
        ms >= 0,
    ensures
        frame_at(ms + 1000) == frame_at(ms),
{
    assert((ms + 1000) / 100 == ms / 100 + 10);
}

/// What is said of a share names it, has the code it is paired by, and says where it
/// can be reached from only this machine; what is served is said to be where it is.
pub proof fn a_share_says_who_can_reach_it(label: Seq<char>, pin: String, serving: Serving)
    ensures
        share_words(label, Some(pin), true) == "Sharing "@ + label + " — operator link copied"@ + (" · pin "@ + pin@),
        share_words(label, None, true) == "Sharing "@ + label + " — operator link copied"@,
        share_words(label, None, false) == "Sharing "@ + label + " — operator link copied"@ + " · this machine only"@,
        serving.public is Some ==> where_to(serving) == "on the internet"@,
        serving.public is None ==> where_to(serving) == "on this machine"@,
{
    reveal_strlit("");
    let said = "Sharing "@ + label + " — operator link copied"@;
    assert(share_words(label, Some(pin), true) =~= said + (" · pin "@ + pin@));
    assert(share_words(label, None, true) =~= said);
    assert(share_words(label, None, false) =~= said + " · this machine only"@);
}

} // verus!
