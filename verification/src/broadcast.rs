//! The broadcaster: the single owner of the live downstream connection set
//! and of the last-known upstream-connectivity flag. Each loop iteration it
//! refreshes the state frame only on a flip, admits newly accepted
//! connections, and decides per connection what to send and when to drop it.
//! The surrounding loop performs the reads and writes and reports their
//! outcomes back.

use vstd::prelude::*;

verus! {

use crate::client::{client_reply, json_int_id_of};
use crate::json::{build_info_json, info_json, reply_json};

/// What the broadcaster remembers of one live downstream connection: the key
/// under which the surrounding loop reaches its socket, the origin it
/// declared at handshake, and the upstream state it was last told.
pub struct Conn {
    pub key: u64,
    pub origin: String,
    pub notified_state: bool,
}

/// What one non-blocking protocol read on a connection yielded, as the
/// surrounding loop observed it.
pub enum ReadEvent {
    /// A text frame arrived, carrying this payload.
    Text { text: String },
    /// The peer sent a close frame.
    Closed,
    /// A frame of another kind arrived; it is ignored.
    Other,
    /// Nothing was available this iteration.
    Idle,
    /// The read failed.
    Failed,
}

/// The frames the loop is to write to one connection this iteration, in
/// order, or the decision to drop it.
pub struct ConnPlan {
    /// Frames to write, in order: the acknowledgment reply, then the
    /// dequeued message, then the state frame — each only when due.
    pub sends: Vec<String>,
    /// The connection read a close frame or failed: remove it, send nothing.
    pub drop_now: bool,
    /// The state frame is among `sends`; once the writes succeed the
    /// connection's state cache is brought up to date with `mark_notified`.
    pub state_included: bool,
}

/// The frames of a connection's plan, at the spec level: nothing when the
/// connection is being dropped; otherwise the optional reply, the optional
/// message, and the state frame exactly when the connection's cache lags
/// behind the current upstream state.
pub open spec fn plan_sends(
    notified: bool,
    current: bool,
    state_frame: Seq<char>,
    reply: Option<Seq<char>>,
    message: Option<Seq<char>>,
    dropping: bool,
) -> Seq<Seq<char>> {
    if dropping {
        seq![]
    } else {
        (match reply {
            Some(r) => seq![r],
            None => seq![],
        }) + (match message {
            Some(m) => seq![m],
            None => seq![],
        }) + (if notified != current {
            seq![state_frame]
        } else {
            seq![]
        })
    }
}

/// The reply the protocol owes for one read event: only a text frame of
/// well-formed JSON carrying an integer `id` is answered, with the
/// acknowledgment echoing that id; every other event — another frame kind,
/// idleness, malformed or id-less JSON — gets none.
pub fn event_reply(event: &ReadEvent) -> (r: Option<String>)
    ensures
        event matches ReadEvent::Text { text } ==> {
            &&& json_int_id_of(text@) matches Some(id) ==> (r matches Some(out) && out@
                == reply_json(id))
            &&& json_int_id_of(text@) is None ==> r is None
        },
        !(event is Text) ==> r is None,
{
    match event {
        ReadEvent::Text { text } => client_reply(text.as_str()),
        _ => None,
    }
}

/// The spec view of an optional frame argument.
pub open spec fn opt_view(o: Option<String>) -> Option<Seq<char>> {
    match o {
        Some(s) => Some(s@),
        None => None,
    }
}

pub struct Broadcaster {
    /// The live connections, in acceptance order.
    pub conns: Vec<Conn>,
    /// The upstream state as of the last state-frame rebuild; None before
    /// the first iteration.
    pub cached_state: Option<bool>,
    /// The current state frame; rebuilt only when the upstream flag flips.
    pub state_json: String,
    /// Whether anyone is watching: while false, the upstream reader
    /// discards records instead of queueing them.
    pub consumer_active: bool,
    /// The version string the state frame reports.
    pub version: String,
}

impl Broadcaster {
    /// The state frame always matches the cached upstream state, and the
    /// consumer-active flag is on exactly while some connection is live.
    pub open spec fn wf(&self) -> bool {
        &&& (match self.cached_state {
            Some(b) => self.state_json@ == info_json(self.version@, b),
            None => true,
        })
        &&& self.consumer_active == (self.conns@.len() != 0)
    }

    pub fn new(version: String) -> (b: Broadcaster)
        ensures
            b.wf(),
            b.conns@.len() == 0,
            b.cached_state is None,
            !b.consumer_active,
            b.version@ == version@,
    {
        Broadcaster {
            conns: Vec::new(),
            cached_state: None,
            state_json: String::new(),
            consumer_active: false,
            version,
        }
    }

    /// Start of each iteration: rebuilds the state frame only when the
    /// upstream flag differs from the cached value, so a steady state costs
    /// nothing and every flip is reflected exactly once.
    pub fn refresh_state(&mut self, upstream: bool)
        requires
            old(self).wf(),
        ensures
            final(self).wf(),
            final(self).cached_state == Some(upstream),
            final(self).state_json@ == info_json(old(self).version@, upstream),
            final(self).conns == old(self).conns,
            final(self).consumer_active == old(self).consumer_active,
            final(self).version == old(self).version,
            old(self).cached_state == Some(upstream) ==> final(self).state_json
                == old(self).state_json,
    {
        let rebuild = match self.cached_state {
            Some(b) => b != upstream,
            None => true,
        };
        if rebuild {
            self.cached_state = Some(upstream);
            let frame = build_info_json(self.version.as_str(), upstream);
            self.state_json = frame;
        }
    }

    /// The one frame a newly accepted connection is to be written before it
    /// joins: the current state, which its cache is then taken to reflect.
    pub fn admission_frame(&self) -> (f: String)
        requires
            self.wf(),
            self.cached_state is Some,
        ensures
            f@ == info_json(self.version@, self.cached_state.unwrap()),
            f@ == self.state_json@,
    {
        self.state_json.clone()
    }

    /// A newly accepted connection joins the live set only when the loop
    /// reports that the admission frame was written to it (`state_sent`):
    /// its cache then starts at the current state, so it is not told again
    /// until the next flip. When it is the first connection, the result
    /// says to discard the message backlog gathered while nobody watched,
    /// and the consumer-active flag turns on. When the write failed, the
    /// connection is not admitted and nothing changes.
    pub fn register(&mut self, key: u64, origin: String, state_sent: bool) -> (drain: bool)
        requires
            old(self).wf(),
            old(self).cached_state is Some,
        ensures
            final(self).wf(),
            !state_sent ==> *final(self) == *old(self) && !drain,
            state_sent ==> {
                &&& drain == (old(self).conns@.len() == 0)
                &&& final(self).conns@.len() == old(self).conns@.len() + 1
                &&& forall|j: int|
                    0 <= j < old(self).conns@.len() ==> final(self).conns@[j] == old(
                        self,
                    ).conns@[j]
                &&& final(self).conns@.last().key == key
                &&& final(self).conns@.last().origin@ == origin@
                &&& final(self).conns@.last().notified_state == old(self).cached_state.unwrap()
                &&& final(self).consumer_active
                &&& final(self).cached_state == old(self).cached_state
                &&& final(self).state_json == old(self).state_json
                &&& final(self).version == old(self).version
            },
    {
        if !state_sent {
            return false;
        }
        let first = self.conns.len() == 0;
        let state = self.cached_state.unwrap();
        self.conns.push(Conn { key, origin, notified_state: state });
        self.consumer_active = true;
        first
    }

    /// Decides one connection's handling this iteration. The loop hands in
    /// what the read yielded, the reply the protocol owes for it (from
    /// `client_reply`), and the message dequeued this iteration, if any; the
    /// plan comes back with the frames to write in order, or the decision to
    /// drop the connection without writing.
    pub fn conn_plan(
        &self,
        i: usize,
        event: &ReadEvent,
        reply: Option<String>,
        message: Option<&String>,
    ) -> (p: ConnPlan)
        requires
            self.wf(),
            self.cached_state is Some,
            i < self.conns@.len(),
        ensures
            p.drop_now == (event is Closed || event is Failed),
            p.state_included == (!p.drop_now && self.conns@[i as int].notified_state
                != self.cached_state.unwrap()),
            p.sends.deep_view() == plan_sends(
                self.conns@[i as int].notified_state,
                self.cached_state.unwrap(),
                self.state_json@,
                opt_view(reply),
                match message {
                    Some(m) => Some(m@),
                    None => None,
                },
                p.drop_now,
            ),
    {
        let ghost notified = self.conns@[i as int].notified_state;
        let ghost current = self.cached_state.unwrap();
        let ghost reply_v = opt_view(reply);
        let ghost message_v = match message {
            Some(m) => Some(m@),
            None => None::<Seq<char>>,
        };
        let drop_now = match event {
            ReadEvent::Closed => true,
            ReadEvent::Failed => true,
            _ => false,
        };
        if drop_now {
            let p = ConnPlan { sends: Vec::new(), drop_now: true, state_included: false };
            assert(p.sends.deep_view() =~~= plan_sends(
                notified,
                current,
                self.state_json@,
                reply_v,
                message_v,
                true,
            ));
            return p;
        }
        let mut sends: Vec<String> = Vec::new();
        match reply {
            Some(r) => sends.push(r),
            None => {},
        }
        match message {
            Some(m) => sends.push(m.clone()),
            None => {},
        }
        let lagging = self.conns[i].notified_state != self.cached_state.unwrap();
        if lagging {
            sends.push(self.state_json.clone());
        }
        let p = ConnPlan { sends, drop_now: false, state_included: lagging };
        assert(p.sends.deep_view() =~~= plan_sends(
            notified,
            current,
            self.state_json@,
            reply_v,
            message_v,
            false,
        ));
        p
    }

    /// After the plan's writes succeeded for a plan that included the state
    /// frame: the connection has now been told the current state, and is not
    /// told again until the next flip.
    pub fn mark_notified(&mut self, i: usize)
        requires
            old(self).wf(),
            old(self).cached_state is Some,
            i < old(self).conns@.len(),
        ensures
            final(self).wf(),
            final(self).conns@.len() == old(self).conns@.len(),
            final(self).conns@[i as int].key == old(self).conns@[i as int].key,
            final(self).conns@[i as int].origin == old(self).conns@[i as int].origin,
            final(self).conns@[i as int].notified_state == old(self).cached_state.unwrap(),
            forall|j: int|
                0 <= j < old(self).conns@.len() && j != i ==> final(self).conns@[j] == old(
                    self,
                ).conns@[j],
            final(self).cached_state == old(self).cached_state,
            final(self).state_json == old(self).state_json,
            final(self).consumer_active == old(self).consumer_active,
            final(self).version == old(self).version,
    {
        let state = self.cached_state.unwrap();
        let entry = self.conns.remove(i);
        self.conns.insert(i, Conn { key: entry.key, origin: entry.origin, notified_state: state });
    }

    /// Removes one connection after a read or write failure or a close
    /// frame: every other connection keeps its place and its state, and the
    /// upstream side is untouched.
    pub fn remove(&mut self, i: usize)
        requires
            old(self).wf(),
            i < old(self).conns@.len(),
        ensures
            final(self).conns@ == old(self).conns@.remove(i as int),
            final(self).conns@.len() == old(self).conns@.len() - 1,
            forall|j: int| 0 <= j < i ==> final(self).conns@[j] == old(self).conns@[j],
            forall|j: int|
                i <= j < final(self).conns@.len() ==> final(self).conns@[j] == old(self).conns@[j
                    + 1],
            final(self).cached_state == old(self).cached_state,
            final(self).state_json == old(self).state_json,
            final(self).consumer_active == old(self).consumer_active,
            final(self).version == old(self).version,
    {
        let _ = self.conns.remove(i);
    }

    /// End of the sweep: when the last connection is gone the
    /// consumer-active flag turns off, so the upstream side goes back to
    /// discarding records instead of queueing them.
    pub fn sweep_end(&mut self)
        ensures
            final(self).consumer_active == (old(self).conns@.len() != 0),
            final(self).conns == old(self).conns,
            final(self).cached_state == old(self).cached_state,
            final(self).state_json == old(self).state_json,
            final(self).version == old(self).version,
            (match old(self).cached_state {
                Some(b) => old(self).state_json@ == info_json(old(self).version@, b),
                None => true,
            }) ==> final(self).wf(),
    {
        self.consumer_active = self.conns.len() != 0;
    }
}

/// Law: one dequeued message is handed to a connection that stays live
/// exactly once this iteration — the plan with the message is the plan
/// without it, with the message inserted at one fixed place, behind the
/// optional reply and before the optional state frame. The plan does not
/// depend on any other connection, so the same holds of every live
/// connection at once.
pub proof fn lemma_message_delivered_once(
    notified: bool,
    current: bool,
    state_frame: Seq<char>,
    reply: Option<Seq<char>>,
    message: Seq<char>,
)
    ensures
        plan_sends(notified, current, state_frame, reply, Some(message), false) == plan_sends(
            notified,
            current,
            state_frame,
            reply,
            None,
            false,
        ).insert(
            match reply {
                Some(_) => 1int,
                None => 0int,
            },
            message,
        ),
{
    let at: int = match reply {
        Some(_) => 1,
        None => 0,
    };
    assert(plan_sends(notified, current, state_frame, reply, Some(message), false) =~~= plan_sends(
        notified,
        current,
        state_frame,
        reply,
        None,
        false,
    ).insert(at, message));
}

/// Law: a connection is told an upstream flip exactly once. A lagging cache
/// puts the state frame at the end of the plan, once; a cache already at the
/// current state keeps it out entirely — so after `mark_notified`, no plan
/// carries it again until the next flip.
pub proof fn lemma_state_notified_once(
    notified: bool,
    current: bool,
    state_frame: Seq<char>,
    reply: Option<Seq<char>>,
    message: Option<Seq<char>>,
)
    ensures
        notified != current ==> {
            let s = plan_sends(notified, current, state_frame, reply, message, false);
            s.len() >= 1 && s.last() == state_frame && s.drop_last() == plan_sends(
                current,
                current,
                state_frame,
                reply,
                message,
                false,
            )
        },
        notified == current ==> plan_sends(notified, current, state_frame, reply, message, false)
            == plan_sends(notified, current, state_frame, reply, None, false) + (match message {
            Some(m) => seq![m],
            None => Seq::<Seq<char>>::empty(),
        }),
{
    if notified != current {
        let s = plan_sends(notified, current, state_frame, reply, message, false);
        assert(s.drop_last() =~~= plan_sends(current, current, state_frame, reply, message, false));
    } else {
        assert(plan_sends(notified, current, state_frame, reply, message, false) =~~= plan_sends(
            notified,
            current,
            state_frame,
            reply,
            None,
            false,
        ) + (match message {
            Some(m) => seq![m],
            None => Seq::<Seq<char>>::empty(),
        }));
    }
}

} // verus!
