//! What every feed thread decides between receive rounds.
//!
//! A feed thread alternates a receive round with a few decisions: whether
//! the report line is due, whether a fresh session wants its subscription
//! sent, whether a connection needs a ticket first, whether a refused
//! message is worth a log line. The thread does the I/O; the decisions,
//! each from the counters it saw to what to do next, are here.
use vstd::prelude::*;
use vstd::string::StrSliceExecFns;

verus! {

/// How to start.
#[derive(Debug, Clone, Copy, PartialEq, Eq, Structural)]
pub struct Options {
    /// This run's identity, written into every segment header.
    pub boot_id: u64,
    /// Pin each feed thread to its `cores`. Off is for a development box
    /// whose cores are not the conf's.
    pub pin: bool,
    /// Cadence of the report line. Zero silences it.
    pub report_ns: u64,
}

/// How a feed thread can end, other than on request.
pub trait Death: Sized {
    /// The receive loop panicked.
    fn panicked() -> Self;
}

/// `a + b`, or the largest `u64` when that does not fit.
pub open spec fn sat_add(a: u64, b: u64) -> u64 {
    if a + b > u64::MAX {
        u64::MAX
    } else {
        (a + b) as u64
    }
}

fn saturating_sum(a: u64, b: u64) -> (res: u64)
    ensures
        res == sat_add(a, b),
{
    if a > u64::MAX - b {
        u64::MAX
    } else {
        a + b
    }
}

// ---------------------------------------------------------------------------
// The report line
// ---------------------------------------------------------------------------

/// When a feed thread writes its report line: every `report_ns`, checked
/// every round by a blocking thread and every 256th round by a spinning one,
/// which reads the clock no more often than that.
#[derive(Debug, Clone, Copy, PartialEq, Eq, Structural)]
pub struct Cadence {
    rounds: u32,
    next_report: u64,
}

/// The cadence's counters, as plain values.
pub struct CadenceModel {
    pub rounds: u32,
    pub next_report: u64,
}

impl View for Cadence {
    type V = CadenceModel;

    closed spec fn view(&self) -> CadenceModel {
        CadenceModel { rounds: self.rounds, next_report: self.next_report }
    }
}

impl Cadence {
    /// Starts counting at `now`: the first report is one period away.
    pub fn new(now: u64, report_ns: u64) -> (res: Cadence)
        ensures
            res@ == (CadenceModel { rounds: 0, next_report: sat_add(now, report_ns) }),
    {
        Cadence { rounds: 0, next_report: saturating_sum(now, report_ns) }
    }

    /// Counts a round. `true` when the clock should be read to see whether
    /// the report is due: never with the report off, every round for a
    /// blocking thread, every 256th for a spinning one.
    pub fn round(&mut self, report_ns: u64, spin: bool) -> (res: bool)
        ensures
            final(self)@.rounds == (old(self)@.rounds + 1) % 0x1_0000_0000,
            final(self)@.next_report == old(self)@.next_report,
            res == (report_ns != 0 && (!spin || final(self)@.rounds % 256 == 0)),
    {
        self.rounds = if self.rounds == u32::MAX {
            0
        } else {
            self.rounds + 1
        };
        let r = self.rounds;
        assert(r & 0xff == r % 256) by (bit_vector);
        report_ns != 0 && (!spin || r & 0xff == 0)
    }

    /// With the clock read: `true` when the report is due, and then the next
    /// one is a period after `now`.
    pub fn due(&mut self, now: u64, report_ns: u64) -> (res: bool)
        ensures
            res == (now >= old(self)@.next_report),
            final(self)@.rounds == old(self)@.rounds,
            final(self)@.next_report == if res {
                sat_add(now, report_ns)
            } else {
                old(self)@.next_report
            },
    {
        if now >= self.next_report {
            self.next_report = saturating_sum(now, report_ns);
            true
        } else {
            false
        }
    }
}

/// Once a report is written at `now`, the next is not due before a full
/// period has passed, unless the period would run past the clock's end.
pub proof fn law_reports_a_period_apart(now: u64, report_ns: u64, later: u64)
    requires
        now <= later,
        later < now + report_ns,
    ensures
        !(later >= sat_add(now, report_ns)) || now + report_ns > u64::MAX,
{
}

// ---------------------------------------------------------------------------
// A FIX session
// ---------------------------------------------------------------------------

/// Sends the subscription after every fresh logon: the first, and each one
/// after a reconnect, when the venue has forgotten it.
#[derive(Debug, Clone, Copy, PartialEq, Eq, Structural)]
pub struct LogonWatch {
    logons_seen: u64,
}

impl View for LogonWatch {
    type V = u64;

    /// Logons already answered with a subscription.
    closed spec fn view(&self) -> u64 {
        self.logons_seen
    }
}

impl LogonWatch {
    /// No logon seen yet.
    pub fn new() -> (res: LogonWatch)
        ensures
            res@ == 0,
    {
        LogonWatch { logons_seen: 0 }
    }

    /// After a round, given the session's logon count and whether it is
    /// logged on: `true` when the subscription must be sent now.
    pub fn after_round(&mut self, logons: u64, logged_on: bool) -> (res: bool)
        ensures
            res == (logons > old(self)@ && logged_on),
            final(self)@ == if res {
                logons
            } else {
                old(self)@
            },
    {
        if logons > self.logons_seen && logged_on {
            self.logons_seen = logons;
            true
        } else {
            false
        }
    }
}

// ---------------------------------------------------------------------------
// A crypto connection
// ---------------------------------------------------------------------------

/// Refused messages logged in full before the log thins to one in a
/// thousand.
pub const FAILURES_LOGGED: u64 = 5;

/// Whether refused message number `count` gets a log line: the first few in
/// full, then one in a thousand, so a venue that changed its protocol shows
/// in the log without a venue sending junk at line rate filling the disk.
pub fn log_refusal(count: u64) -> (res: bool)
    ensures
        res == (count <= FAILURES_LOGGED || count % 1000 == 0),
{
    count <= FAILURES_LOGGED || count % 1000 == 0
}

/// The ticket a connection may need before it dials, and what a fresh open
/// or a drop means for it.
#[derive(Debug, Clone, Copy, PartialEq, Eq, Structural)]
pub struct LinkWatch {
    needs_ticket: bool,
    ticket_due: bool,
    ticket_retry_ns: u64,
    opens_seen: u64,
    disconnects_seen: u64,
}

/// A link watch, as plain values.
pub struct LinkModel {
    pub needs_ticket: bool,
    pub ticket_due: bool,
    pub ticket_retry_ns: u64,
    pub opens_seen: u64,
    pub disconnects_seen: u64,
}

impl View for LinkWatch {
    type V = LinkModel;

    closed spec fn view(&self) -> LinkModel {
        LinkModel {
            needs_ticket: self.needs_ticket,
            ticket_due: self.ticket_due,
            ticket_retry_ns: self.ticket_retry_ns,
            opens_seen: self.opens_seen,
            disconnects_seen: self.disconnects_seen,
        }
    }
}

impl LinkWatch {
    /// A connection not yet made: a ticket is due if the venue takes one.
    pub fn new(needs_ticket: bool) -> (res: LinkWatch)
        ensures
            res@ == (LinkModel {
                needs_ticket,
                ticket_due: needs_ticket,
                ticket_retry_ns: 0,
                opens_seen: 0,
                disconnects_seen: 0,
            }),
    {
        LinkWatch { needs_ticket, ticket_due: needs_ticket, ticket_retry_ns: 0, opens_seen: 0, disconnects_seen: 0 }
    }

    /// `true` when a ticket is wanted before the next connect: one is due
    /// and the link is down. The clock is read only then.
    pub fn ticket_wanted(&self, disconnected: bool) -> (res: bool)
        ensures
            res == (self@.ticket_due && disconnected),
    {
        self.ticket_due && disconnected
    }

    /// With the clock read: `true` when the ticket may be fetched now, the
    /// last failure's wait being over.
    pub fn ticket_time(&self, now: u64) -> (res: bool)
        ensures
            res == (now >= self@.ticket_retry_ns),
    {
        now >= self.ticket_retry_ns
    }

    /// The ticket came: none is due until the link drops.
    pub fn ticket_fetched(&mut self)
        ensures
            final(self)@ == (LinkModel { ticket_due: false, ..old(self)@ }),
    {
        self.ticket_due = false;
    }

    /// The ticket failed at `now`: the next try waits a reconnect period.
    pub fn ticket_failed(&mut self, now: u64, reconnect_ns: u64)
        ensures
            final(self)@ == (LinkModel { ticket_retry_ns: sat_add(now, reconnect_ns), ..old(self)@ }),
    {
        self.ticket_retry_ns = saturating_sum(now, reconnect_ns);
    }

    /// After a round, given the connection's counts of drops and opens: a
    /// new drop makes a ticket due again (if the venue takes one); a new
    /// open answers `true`, for the subscription and the start books.
    pub fn after_round(&mut self, disconnects: u64, opens: u64) -> (res: bool)
        ensures
            res == (opens > old(self)@.opens_seen),
            final(self)@.needs_ticket == old(self)@.needs_ticket,
            final(self)@.ticket_retry_ns == old(self)@.ticket_retry_ns,
            final(self)@.disconnects_seen == if disconnects > old(self)@.disconnects_seen {
                disconnects
            } else {
                old(self)@.disconnects_seen
            },
            final(self)@.ticket_due == if disconnects > old(self)@.disconnects_seen {
                old(self)@.needs_ticket
            } else {
                old(self)@.ticket_due
            },
            final(self)@.opens_seen == if res {
                opens
            } else {
                old(self)@.opens_seen
            },
    {
        if disconnects > self.disconnects_seen {
            self.disconnects_seen = disconnects;
            self.ticket_due = self.needs_ticket;
        }
        if opens > self.opens_seen {
            self.opens_seen = opens;
            true
        } else {
            false
        }
    }
}

/// `path` up to its first `?`: a query may hold a token that is not for
/// the log.
pub open spec fn path_head_of(path: Seq<char>) -> Seq<char>
    decreases path.len(),
{
    if path.len() == 0 {
        path
    } else if path[0] == '?' {
        Seq::empty()
    } else {
        seq![path[0]] + path_head_of(path.drop_first())
    }
}

proof fn lemma_path_head(path: Seq<char>, i: int)
    requires
        0 <= i <= path.len(),
        forall|k: int| 0 <= k < i ==> path[k] != '?',
    ensures
        path_head_of(path) == path.subrange(0, i) + path_head_of(path.subrange(i, path.len() as int)),
    decreases i,
{
    if i > 0 {
        lemma_path_head(path.drop_first(), i - 1);
        assert(path.drop_first().subrange(0, i - 1) =~= path.subrange(1, i));
        assert(path.drop_first().subrange(i - 1, path.drop_first().len() as int) =~= path.subrange(
            i,
            path.len() as int,
        ));
        assert(path.subrange(0, i) =~= seq![path[0]] + path.subrange(1, i));
    } else {
        assert(path.subrange(0, 0) =~= Seq::<char>::empty());
        assert(path.subrange(0, path.len() as int) =~= path);
    }
}

/// The path up to its query.
pub fn path_head(path: &str) -> (res: &str)
    ensures
        res@ == path_head_of(path@),
{
    let n = path.unicode_len();
    let mut i: usize = 0;
    while i < n
        invariant
            n == path@.len(),
            i <= n,
            forall|k: int| 0 <= k < i ==> path@[k] != '?',
        ensures
            i <= n,
            forall|k: int| 0 <= k < i ==> path@[k] != '?',
            i < n ==> path@[i as int] == '?',
        decreases n - i,
    {
        if path.get_char(i) == '?' {
            break;
        }
        i += 1;
    }
    proof {
        lemma_path_head(path@, i as int);
        let rest = path@.subrange(i as int, path@.len() as int);
        if i < n {
            assert(rest[0] == '?');
            assert(path_head_of(rest) =~= Seq::<char>::empty());
        } else {
            assert(rest =~= Seq::<char>::empty());
        }
        assert(path@.subrange(0, i as int) + path_head_of(rest) =~= path@.subrange(0, i as int));
    }
    path.substring_char(0, i)
}

} // verus!
