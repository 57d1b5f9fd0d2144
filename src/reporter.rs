use vstd::prelude::*;

use crate::codes::ErrorCode;
use crate::loc::Loc;

verus! {

/// A reported error: its code, where it was found if known, and a message.
#[derive(Debug)]
pub struct Error {
    pub code: ErrorCode,
    pub loc: Option<Loc>,
    pub message: String,
}

impl Error {
    fn new(code: ErrorCode, loc: Option<Loc>, message: String) -> (r: Self)
        ensures
            r == (Error { code, loc, message }),
    {
        Self { code, loc, message }
    }
}

/// The unit that the log holds and that observers receive.
#[derive(Debug)]
pub enum Message {
    Error(Error),
    Info(String),
}

impl Message {
    /// An equal copy of the message.
    pub fn duplicate(&self) -> (r: Message)
        ensures
            r == *self,
    {
        match self {
            Message::Error(e) => Message::Error(
                Error { code: e.code, loc: e.loc, message: e.message.clone() },
            ),
            Message::Info(s) => Message::Info(s.clone()),
        }
    }
}

/// What a reporter holds: the log in reporting order, the sticky error flag,
/// and for each observer handle whether it is registered and what it has
/// received.
pub ghost struct ReporterState {
    pub log: Seq<Message>,
    pub errored: bool,
    pub active: Seq<bool>,
    pub received: Seq<Seq<Message>>,
}

impl ReporterState {
    pub open spec fn initial() -> ReporterState {
        ReporterState {
            log: Seq::empty(),
            errored: false,
            active: Seq::empty(),
            received: Seq::empty(),
        }
    }

    /// Every handle ever given out has an inbox.
    pub open spec fn wf(self) -> bool {
        self.active.len() == self.received.len()
    }

    /// `m` is appended to the log and to the inbox of every registered
    /// observer.
    pub open spec fn delivered(self, m: Message) -> ReporterState {
        ReporterState {
            log: self.log.push(m),
            received: Seq::new(
                self.received.len(),
                |i: int|
                    if self.active[i] {
                        self.received[i].push(m)
                    } else {
                        self.received[i]
                    },
            ),
            ..self
        }
    }

    /// The state after an error is reported: it is delivered, and the flag is
    /// set for good.
    pub open spec fn error_reported(self, loc: Option<Loc>, code: ErrorCode, message: String) -> ReporterState {
        ReporterState {
            errored: true,
            ..self.delivered(Message::Error(Error { code, loc, message }))
        }
    }

    pub open spec fn info_reported(self, message: String) -> ReporterState {
        self.delivered(Message::Info(message))
    }

    /// The state after the log is drained; nothing else changes.
    pub open spec fn polled(self) -> ReporterState {
        ReporterState { log: Seq::empty(), ..self }
    }

    /// The state after a new observer is registered; its handle is the
    /// number of handles given out before.
    pub open spec fn registered(self) -> ReporterState {
        ReporterState {
            active: self.active.push(true),
            received: self.received.push(Seq::empty()),
            ..self
        }
    }

    /// The state after observer `h` stops receiving; what it already received
    /// stays in its inbox.
    pub open spec fn deregistered(self, h: int) -> ReporterState {
        if 0 <= h < self.active.len() {
            ReporterState { active: self.active.update(h, false), ..self }
        } else {
            self
        }
    }

    /// The state after the current log is replayed to observer `h`.
    pub open spec fn replayed_to(self, h: int) -> ReporterState {
        if 0 <= h < self.received.len() {
            ReporterState { received: self.received.update(h, self.received[h] + self.log), ..self }
        } else {
            self
        }
    }

    /// The state after the inbox of observer `h` is emptied.
    pub open spec fn observer_drained(self, h: int) -> ReporterState {
        if 0 <= h < self.received.len() {
            ReporterState { received: self.received.update(h, Seq::empty()), ..self }
        } else {
            self
        }
    }
}

/// Collects diagnostics: appends each to its log, sets a sticky flag on the
/// first error, and hands each to the observers registered at the time.
/// The log is consumed by draining it with `poll`.
pub struct Reporter {
    log: Vec<Message>,
    errored: bool,
    active: Vec<bool>,
    received: Vec<Vec<Message>>,
}

impl View for Reporter {
    type V = ReporterState;

    closed spec fn view(&self) -> ReporterState {
        ReporterState {
            log: self.log@,
            errored: self.errored,
            active: self.active@,
            received: Seq::new(self.received@.len(), |i: int| self.received@[i]@),
        }
    }
}

impl Reporter {
    pub closed spec fn wf(&self) -> bool {
        self.active@.len() == self.received@.len()
    }

    pub fn new() -> (r: Self)
        ensures
            r.wf(),
            r@ == ReporterState::initial(),
    {
        let r = Self { log: Vec::new(), errored: false, active: Vec::new(), received: Vec::new() };
        assert(r@.received =~= Seq::<Seq<Message>>::empty());
        r
    }

    /// Whether any error has been reported so far.
    pub fn errored(&self) -> (r: bool)
        ensures
            r == self@.errored,
    {
        self.errored
    }

    /// Appends `m` to the log and hands a copy to each registered observer.
    fn deliver(&mut self, m: Message)
        requires
            old(self).wf(),
        ensures
            final(self).wf(),
            final(self)@ == old(self)@.delivered(m),
    {
        let n = self.received.len();
        let mut i: usize = 0;
        while i < n
            invariant
                n == self.received@.len() == self.active@.len(),
                i <= n,
                self.log@ == old(self).log@,
                self.errored == old(self).errored,
                self.active@ == old(self).active@,
                forall|j: int|
                    0 <= j < n ==> #[trigger] self.received@[j]@ == if j < i && self.active@[j] {
                        old(self)@.received[j].push(m)
                    } else {
                        old(self)@.received[j]
                    },
            decreases n - i,
        {
            if self.active[i] {
                let copy = m.duplicate();
                self.received[i].push(copy);
            }
            i += 1;
        }
        self.log.push(m);
        assert(self@.received =~= old(self)@.delivered(m).received);
        assert(self@.log =~= old(self)@.delivered(m).log);
    }

    /// Reports an error found at `loc`.
    pub fn error(&mut self, loc: Loc, code: ErrorCode, message: String)
        requires
            old(self).wf(),
        ensures
            final(self).wf(),
            final(self)@ == old(self)@.error_reported(Some(loc), code, message),
    {
        self.error_option_loc(Some(loc), code, message);
    }

    /// Reports an error whose place in the source is not known.
    pub fn error_unknown_loc(&mut self, code: ErrorCode, message: String)
        requires
            old(self).wf(),
        ensures
            final(self).wf(),
            final(self)@ == old(self)@.error_reported(None, code, message),
    {
        self.error_option_loc(None, code, message);
    }

    /// Reports an error, with or without a place in the source.
    pub fn error_option_loc(&mut self, loc: Option<Loc>, code: ErrorCode, message: String)
        requires
            old(self).wf(),
        ensures
            final(self).wf(),
            final(self)@ == old(self)@.error_reported(loc, code, message),
    {
        self.errored = true;
        let e = Error::new(code, loc, message);
        self.deliver(Message::Error(e));
    }

    /// Reports an informational message; the error flag is left as it is.
    pub fn info(&mut self, message: String)
        requires
            old(self).wf(),
        ensures
            final(self).wf(),
            final(self)@ == old(self)@.info_reported(message),
    {
        self.deliver(Message::Info(message));
    }

    /// Takes every message logged since the last drain, in reporting order.
    pub fn poll(&mut self) -> (r: Vec<Message>)
        requires
            old(self).wf(),
        ensures
            final(self).wf(),
            r@ == old(self)@.log,
            final(self)@ == old(self)@.polled(),
    {
        let mut out = Vec::new();
        std::mem::swap(&mut out, &mut self.log);
        assert(self@ == old(self)@.polled());
        out
    }

    /// The messages logged since the last drain, without taking them.
    pub fn log(&self) -> (r: &[Message])
        ensures
            r@ == self@.log,
    {
        self.log.as_slice()
    }

    /// Registers a new observer; it receives each message reported from now
    /// on until it is deregistered.
    pub fn register(&mut self) -> (h: usize)
        requires
            old(self).wf(),
            old(self)@.active.len() < usize::MAX,
        ensures
            final(self).wf(),
            h == old(self)@.active.len(),
            final(self)@ == old(self)@.registered(),
    {
        let h = self.active.len();
        self.active.push(true);
        self.received.push(Vec::new());
        assert(self@.received =~= old(self)@.registered().received);
        h
    }

    /// Stops delivery to observer `h`; an unknown handle changes nothing.
    pub fn deregister(&mut self, h: usize)
        requires
            old(self).wf(),
        ensures
            final(self).wf(),
            final(self)@ == old(self)@.deregistered(h as int),
    {
        if h < self.active.len() {
            self.active.set(h, false);
        }
        assert(self@.received =~= old(self)@.deregistered(h as int).received);
    }

    /// Hands observer `h` a copy of every message in the log, in reporting
    /// order, whether or not it is still registered; an unknown handle
    /// changes nothing.
    pub fn replay_to(&mut self, h: usize)
        requires
            old(self).wf(),
        ensures
            final(self).wf(),
            final(self)@ == old(self)@.replayed_to(h as int),
    {
        if h < self.received.len() {
            let n = self.log.len();
            let mut i: usize = 0;
            while i < n
                invariant
                    n == self.log@.len() == old(self).log@.len(),
                    h < self.received@.len() == old(self).received@.len(),
                    i <= n,
                    self.log@ == old(self).log@,
                    self.errored == old(self).errored,
                    self.active@ == old(self).active@,
                    forall|j: int|
                        0 <= j < self.received@.len() && j != h ==> #[trigger] self.received@[j]
                            == old(self).received@[j],
                    self.received@[h as int]@ == old(self)@.received[h as int] + self.log@.subrange(
                        0,
                        i as int,
                    ),
                decreases n - i,
            {
                let copy = self.log[i].duplicate();
                self.received[h].push(copy);
                i += 1;
                assert(self.received@[h as int]@ =~= old(self)@.received[h as int]
                    + self.log@.subrange(0, i as int));
            }
            assert(self.log@.subrange(0, n as int) =~= self.log@);
        }
        assert(self@.received =~= old(self)@.replayed_to(h as int).received);
    }

    /// Takes what observer `h` has received so far, in reporting order; an
    /// unknown handle has received nothing.
    pub fn drain_observer(&mut self, h: usize) -> (r: Vec<Message>)
        requires
            old(self).wf(),
        ensures
            final(self).wf(),
            r@ == if h < old(self)@.received.len() {
                old(self)@.received[h as int]
            } else {
                Seq::empty()
            },
            final(self)@ == old(self)@.observer_drained(h as int),
    {
        let mut out = Vec::new();
        if h < self.received.len() {
            std::mem::swap(&mut out, &mut self.received[h]);
        }
        assert(self@.received =~= old(self)@.observer_drained(h as int).received);
        out
    }
}


/// The error flag is clear on a new reporter, set by every error report,
/// and kept through later info reports and drains of the log.
pub proof fn lemma_errored_sticky(
    s: ReporterState,
    loc: Option<Loc>,
    code: ErrorCode,
    message: String,
    info: String,
)
    ensures
        !ReporterState::initial().errored,
        s.error_reported(loc, code, message).errored,
        s.errored ==> s.info_reported(info).errored,
        s.errored ==> s.polled().errored,
        s.error_reported(loc, code, message).info_reported(info).polled().errored,
{
}

/// Two observers registered before an error each receive exactly that
/// error, equal to the entry appended to the log; after the first is
/// deregistered, a second error reaches only the other one.
pub proof fn lemma_observer_delivery(
    s: ReporterState,
    loc1: Option<Loc>,
    code1: ErrorCode,
    message1: String,
    loc2: Option<Loc>,
    code2: ErrorCode,
    message2: String,
)
    requires
        s.wf(),
    ensures
        ({
            let h1 = s.active.len() as int;
            let h2 = h1 + 1;
            let s1 = s.registered().registered().error_reported(loc1, code1, message1);
            let s2 = s1.deregistered(h1).error_reported(loc2, code2, message2);
            let m1 = Message::Error(Error { code: code1, loc: loc1, message: message1 });
            let m2 = Message::Error(Error { code: code2, loc: loc2, message: message2 });
            &&& s1.log.last() == m1
            &&& s1.received[h1] == seq![m1]
            &&& s1.received[h2] == seq![m1]
            &&& s2.log.last() == m2
            &&& s2.received[h1] == seq![m1]
            &&& s2.received[h2] == seq![m1, m2]
        }),
{
    let h1 = s.active.len() as int;
    let h2 = h1 + 1;
    let s1 = s.registered().registered().error_reported(loc1, code1, message1);
    let s2 = s1.deregistered(h1).error_reported(loc2, code2, message2);
    let m1 = Message::Error(Error { code: code1, loc: loc1, message: message1 });
    let m2 = Message::Error(Error { code: code2, loc: loc2, message: message2 });
    assert(s1.received[h1] =~= seq![m1]);
    assert(s1.received[h2] =~= seq![m1]);
    assert(s2.received[h1] =~= seq![m1]);
    assert(s2.received[h2] =~= seq![m1, m2]);
}

} // verus!
