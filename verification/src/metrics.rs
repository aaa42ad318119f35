//! The telemetry channel: the line protocol in which samples are written, and
//! the batching policy of the worker that ships them.

use crate::command::Invocation;
use crate::text::{push_text, to_chars, to_text, trim, trimmed, utf8_text};
use vstd::prelude::*;
use vstd::utf8::{decode_utf8, valid_utf8};

verus! {

/// What travels through the telemetry queue.
#[derive(Debug, Clone, PartialEq, Eq)]
pub enum MetricEvent {
    /// One sample, written in the line protocol.
    Metric(String),
    /// The request to shut the worker down.
    Exit,
}

/// What the worker found when it looked at the queue.
#[derive(Debug, Clone, PartialEq, Eq)]
pub enum Polled {
    /// An event was taken from the queue.
    Event(MetricEvent),
    /// The queue holds nothing at the moment.
    Empty,
    /// Every sender is gone.
    Closed,
}

/// The telemetry worker between two looks at the queue.
#[derive(Debug, Clone, PartialEq, Eq)]
pub enum MetricWorker {
    /// No sample is pending: the next look waits until an event arrives.
    Waiting,
    /// A batch is pending: the next look takes only what is there already.
    Draining(String),
    /// The worker has ended.
    Stopped,
}

/// What a look at the queue found, as the contracts see it.
pub enum Signal {
    Sample(Seq<char>),
    Exit,
    Empty,
    Closed,
}

/// The worker as the contracts see it.
pub enum WorkerState {
    Waiting,
    Draining(Seq<char>),
    Stopped,
}

impl View for Polled {
    type V = Signal;

    open spec fn view(&self) -> Signal {
        match *self {
            Polled::Event(MetricEvent::Metric(line)) => Signal::Sample(line@),
            Polled::Event(MetricEvent::Exit) => Signal::Exit,
            Polled::Empty => Signal::Empty,
            Polled::Closed => Signal::Closed,
        }
    }
}

impl View for MetricWorker {
    type V = WorkerState;

    open spec fn view(&self) -> WorkerState {
        match *self {
            MetricWorker::Waiting => WorkerState::Waiting,
            MetricWorker::Draining(batch) => WorkerState::Draining(batch@),
            MetricWorker::Stopped => WorkerState::Stopped,
        }
    }
}

/// The worker after it found `signal`, and the batch that it hands to the
/// sink on the way, if any.
///
/// A sample opens a batch or joins the pending one after a line feed. The
/// batch goes out as soon as the queue is found empty. A shutdown request or
/// a closed queue ends the worker at once: a pending batch is dropped.
pub open spec fn advance(w: WorkerState, signal: Signal) -> (WorkerState, Option<Seq<char>>) {
    match w {
        WorkerState::Waiting => match signal {
            Signal::Sample(line) => (WorkerState::Draining(line), None),
            Signal::Empty => (WorkerState::Waiting, None),
            _ => (WorkerState::Stopped, None),
        },
        WorkerState::Draining(batch) => match signal {
            Signal::Sample(line) => (WorkerState::Draining(batch + seq!['\n'] + line), None),
            Signal::Empty => (WorkerState::Waiting, Some(batch)),
            _ => (WorkerState::Stopped, None),
        },
        WorkerState::Stopped => (WorkerState::Stopped, None),
    }
}

/// The worker after it found the signals of `trace` one after the other,
/// and the batches that it handed to the sink, in their order.
pub open spec fn run(trace: Seq<Signal>) -> (WorkerState, Seq<Seq<char>>)
    decreases trace.len(),
{
    if trace.len() == 0 {
        (WorkerState::Waiting, Seq::empty())
    } else {
        let (w, sent) = run(trace.drop_last());
        let (next, batch) = advance(w, trace.last());
        match batch {
            Some(b) => (next, sent.push(b)),
            None => (next, sent),
        }
    }
}

/// The samples that the worker took from the queue while it ran, in their
/// order.
pub open spec fn submitted(trace: Seq<Signal>) -> Seq<Seq<char>>
    decreases trace.len(),
{
    if trace.len() == 0 {
        Seq::empty()
    } else {
        let before = submitted(trace.drop_last());
        match trace.last() {
            Signal::Sample(line) => if run(trace.drop_last()).0 is Stopped {
                before
            } else {
                before.push(line)
            },
            _ => before,
        }
    }
}

/// `parts` with a line feed between each two.
pub open spec fn joined(parts: Seq<Seq<char>>) -> Seq<char>
    decreases parts.len(),
{
    if parts.len() == 0 {
        Seq::empty()
    } else if parts.len() == 1 {
        parts.last()
    } else {
        joined(parts.drop_last()) + seq!['\n'] + parts.last()
    }
}

/// The texts of a list of pairs.
pub open spec fn pair_texts(pairs: Seq<(String, String)>) -> Seq<(Seq<char>, Seq<char>)> {
    pairs.map_values(|p: (String, String)| (p.0@, p.1@))
}

/// The text that `text` holds, where it holds one.
pub open spec fn opt_text(text: Option<&str>) -> Option<Seq<char>> {
    match text {
        Some(h) => Some(h@),
        None => None,
    }
}

/// `s` with a backslash before each of its spaces.
pub open spec fn escaped(s: Seq<char>) -> Seq<char>
    decreases s.len(),
{
    if s.len() == 0 {
        Seq::empty()
    } else if s.last() == ' ' {
        escaped(s.drop_last()).push('\\').push(' ')
    } else {
        escaped(s.drop_last()).push(s.last())
    }
}

/// The fields of a sample: `name=value` for each, both escaped, with commas
/// between them.
pub open spec fn fields_text(fields: Seq<(Seq<char>, Seq<char>)>) -> Seq<char>
    decreases fields.len(),
{
    if fields.len() == 0 {
        Seq::empty()
    } else {
        let head = fields_text(fields.drop_last());
        let item = escaped(fields.last().0) + seq!['='] + escaped(fields.last().1);
        if head.len() > 0 {
            head + seq![','] + item
        } else {
            item
        }
    }
}

/// The tags of a sample: `,name=value` for each, both escaped.
pub open spec fn tags_text(tags: Seq<(Seq<char>, Seq<char>)>) -> Seq<char>
    decreases tags.len(),
{
    if tags.len() == 0 {
        Seq::empty()
    } else {
        tags_text(tags.drop_last()) + seq![','] + escaped(tags.last().0) + seq!['='] + escaped(
            tags.last().1,
        )
    }
}

/// The tag that names the host, where the host name is known: it comes
/// before the other tags.
pub open spec fn host_tag(hostname: Option<Seq<char>>) -> Seq<char> {
    match hostname {
        Some(h) => ",hostname="@ + escaped(h),
        None => Seq::empty(),
    }
}

/// A sample in the line protocol: the measurement name, the tags, a space,
/// the fields.
pub open spec fn metric_line(
    hostname: Option<Seq<char>>,
    tags: Seq<(Seq<char>, Seq<char>)>,
    fields: Seq<(Seq<char>, Seq<char>)>,
) -> Seq<char> {
    "thermal_watchdog"@ + host_tag(hostname) + tags_text(tags) + seq![' '] + fields_text(fields)
}

/// The host name that the command printed: its output, trimmed, where it
/// ran, ended with success and wrote UTF-8 text.
pub open spec fn hostname_text(outcome: Invocation) -> Option<Seq<char>> {
    match outcome {
        Invocation::Failed => None,
        Invocation::Finished(out) => if out.success && valid_utf8(out.stdout@) {
            Some(trimmed(decode_utf8(out.stdout@)))
        } else {
            None
        },
    }
}

/// The host name that the command which prints it gave, if it gave one.
pub fn get_hostname(outcome: &Invocation) -> (r: Option<String>)
    ensures
        match r {
            Some(h) => hostname_text(*outcome) == Some(h@),
            None => hostname_text(*outcome) is None,
        },
{
    match outcome {
        Invocation::Failed => None,
        Invocation::Finished(out) => {
            if !out.success {
                return None;
            }
            match utf8_text(out.stdout.as_slice()) {
                Some(text) => {
                    let chars = to_chars(text);
                    Some(to_text(trim(chars.as_slice())))
                },
                None => None,
            }
        },
    }
}

/// The address to which batches are posted: the write endpoint of the
/// server `host` for the database `db`, with the credentials that are given.
pub open spec fn write_url_text(
    host: Seq<char>,
    db: Seq<char>,
    user: Option<Seq<char>>,
    pw: Option<Seq<char>>,
) -> Seq<char> {
    host + "/write?db="@ + db + match user {
        Some(u) => "&u="@ + u,
        None => Seq::empty(),
    } + match pw {
        Some(p) => "&p="@ + p,
        None => Seq::empty(),
    }
}

/// The address to which batches are posted.
pub fn write_url(host: &str, db: &str, user: Option<&str>, pw: Option<&str>) -> (url: String)
    ensures
        url@ == write_url_text(host@, db@, opt_text(user), opt_text(pw)),
{
    let mut url = String::new();
    push_text(&mut url, host);
    push_text(&mut url, "/write?db=");
    push_text(&mut url, db);
    match user {
        Some(u) => {
            push_text(&mut url, "&u=");
            push_text(&mut url, u);
        },
        None => {},
    }
    match pw {
        Some(p) => {
            push_text(&mut url, "&p=");
            push_text(&mut url, p);
        },
        None => {},
    }
    assert(url@ =~= write_url_text(host@, db@, opt_text(user), opt_text(pw)));
    url
}

/// Writes `s` at the end of `out`, with a backslash before each space.
fn push_escaped(out: &mut String, s: &str)
    ensures
        final(out)@ == old(out)@ + escaped(s@),
{
    for c in it: s.chars()
        invariant
            out@ == old(out)@ + escaped(it.seq().take(it.index() as int)),
            it.seq() == s@,
    {
        assert(s@.take(it.index() as int + 1).drop_last() =~= s@.take(it.index() as int));
        if c == ' ' {
            out.push('\\');
            out.push(' ');
        } else {
            out.push(c);
        }
        assert(out@ =~= old(out)@ + escaped(s@.take(it.index() as int + 1)));
    }
    assert(s@.take(s@.len() as int) =~= s@);
}

/// Writes the fields of a sample at the end of `out`.
fn push_fields(out: &mut String, fields: &[(String, String)])
    ensures
        final(out)@ == old(out)@ + fields_text(pair_texts(fields@)),
{
    let ghost all = pair_texts(fields@);
    let mut i: usize = 0;
    while i < fields.len()
        invariant
            i <= fields.len(),
            all == pair_texts(fields@),
            out@ == old(out)@ + fields_text(all.take(i as int)),
        decreases fields.len() - i,
    {
        assert(all.take(i as int + 1).drop_last() =~= all.take(i as int));
        assert(all.take(i as int + 1).last() == (fields@[i as int].0@, fields@[i as int].1@));
        if i > 0 {
            out.push(',');
            proof {
                lemma_fields_text_len(all.take(i as int));
            }
        }
        push_escaped(out, fields[i].0.as_str());
        out.push('=');
        push_escaped(out, fields[i].1.as_str());
        assert(out@ =~= old(out)@ + fields_text(all.take(i as int + 1)));
        i += 1;
    }
    assert(all.take(i as int) =~= all);
}

/// Writes the tags of a sample at the end of `out`.
fn push_tags(out: &mut String, tags: &[(String, String)])
    ensures
        final(out)@ == old(out)@ + tags_text(pair_texts(tags@)),
{
    let ghost all = pair_texts(tags@);
    let mut i: usize = 0;
    while i < tags.len()
        invariant
            i <= tags.len(),
            all == pair_texts(tags@),
            out@ == old(out)@ + tags_text(all.take(i as int)),
        decreases tags.len() - i,
    {
        assert(all.take(i as int + 1).drop_last() =~= all.take(i as int));
        assert(all.take(i as int + 1).last() == (tags@[i as int].0@, tags@[i as int].1@));
        out.push(',');
        push_escaped(out, tags[i].0.as_str());
        out.push('=');
        push_escaped(out, tags[i].1.as_str());
        assert(out@ =~= old(out)@ + tags_text(all.take(i as int + 1)));
        i += 1;
    }
    assert(all.take(i as int) =~= all);
}

/// The fields of a sample are written as no text only where there are none.
pub proof fn lemma_fields_text_len(fields: Seq<(Seq<char>, Seq<char>)>)
    ensures
        fields.len() > 0 ==> fields_text(fields).len() > 0,
{
}

/// Writes a sample in the line protocol, ready to be submitted to the
/// telemetry queue. Each field is a name and the value written out; each tag
/// is a name and a value. Spaces in any of them are escaped.
pub fn report_metric(
    event: &[(String, String)],
    tags: &[(String, String)],
    hostname: Option<&str>,
) -> (r: MetricEvent)
    ensures
        r matches MetricEvent::Metric(line) && line@ == metric_line(
            opt_text(hostname),
            pair_texts(tags@),
            pair_texts(event@),
        ),
{
    let mut line = String::new();
    push_text(&mut line, "thermal_watchdog");
    match hostname {
        Some(h) => {
            push_text(&mut line, ",hostname=");
            push_escaped(&mut line, h);
        },
        None => {},
    }
    push_tags(&mut line, tags);
    line.push(' ');
    push_fields(&mut line, event);
    assert(line@ =~= metric_line(opt_text(hostname), pair_texts(tags@), pair_texts(event@)));
    MetricEvent::Metric(line)
}

/// Every space of an escaped text stands behind a backslash.
pub proof fn lemma_escaped_spaces(s: Seq<char>)
    ensures
        forall|i: int|
            0 <= i < escaped(s).len() && #[trigger] escaped(s)[i] == ' ' ==> i > 0 && escaped(
                s,
            )[i - 1] == '\\',
    decreases s.len(),
{
    if s.len() > 0 {
        lemma_escaped_spaces(s.drop_last());
        let head = escaped(s.drop_last());
        assert forall|i: int| 0 <= i < escaped(s).len() && #[trigger] escaped(s)[i] == ' ' implies i
            > 0 && escaped(s)[i - 1] == '\\' by {
            if i < head.len() {
                assert(escaped(s)[i] == head[i]);
                assert(escaped(s)[i - 1] == head[i - 1]);
            }
        }
    }
}

/// Joining one more part puts it after a line feed, or alone.
pub proof fn lemma_joined_push(parts: Seq<Seq<char>>, last: Seq<char>)
    ensures
        joined(parts.push(last)) == if parts.len() == 0 {
            last
        } else {
            joined(parts) + seq!['\n'] + last
        },
{
    assert(parts.push(last).drop_last() =~= parts);
}

/// Joining two lists that hold something is joining each and putting a line
/// feed between.
pub proof fn lemma_joined_concat(a: Seq<Seq<char>>, b: Seq<Seq<char>>)
    requires
        a.len() > 0,
        b.len() > 0,
    ensures
        joined(a + b) == joined(a) + seq!['\n'] + joined(b),
    decreases b.len(),
{
    let front = b.drop_last();
    assert((a + b).drop_last() =~= a + front);
    if front.len() == 0 {
        assert(a + front =~= a);
    } else {
        lemma_joined_concat(a, front);
        assert(joined(a + b) =~= joined(a) + seq!['\n'] + joined(b));
    }
}

/// The batching law of the worker, for every sequence of looks at the queue.
///
/// There are never more batches than samples. What was handed to the sink,
/// batch after batch with a line feed between, is what the first `k` samples
/// give when they are joined in the order in which they were submitted, for
/// some `k`: nothing is reordered, repeated or left out in between. A batch
/// that is still pending holds the samples after those, in their order. When
/// the worker waits again, every sample was handed over, so at least one
/// batch went out if there was a sample at all.
pub proof fn lemma_batching(trace: Seq<Signal>)
    ensures
        run(trace).1.len() <= submitted(trace).len(),
        exists|k: int|
            {
                &&& 0 <= k <= submitted(trace).len()
                &&& run(trace).1.len() <= k
                &&& (k > 0 ==> run(trace).1.len() > 0)
                &&& joined(run(trace).1) == joined(#[trigger] submitted(trace).take(k))
                &&& (run(trace).0 is Waiting ==> k == submitted(trace).len())
                &&& (run(trace).0 matches WorkerState::Draining(batch) ==> k < submitted(
                    trace,
                ).len() && batch == joined(submitted(trace).skip(k)))
            },
    decreases trace.len(),
{
    let s = submitted(trace);
    let (w, sent) = run(trace);
    if trace.len() == 0 {
        assert(s.take(0) =~= s);
    } else {
        let prev = trace.drop_last();
        lemma_batching(prev);
        let s0 = submitted(prev);
        let (w0, sent0) = run(prev);
        let k0 = choose|k: int|
            {
                &&& 0 <= k <= s0.len()
                &&& sent0.len() <= k
                &&& (k > 0 ==> sent0.len() > 0)
                &&& joined(sent0) == joined(#[trigger] s0.take(k))
                &&& (w0 is Waiting ==> k == s0.len())
                &&& (w0 matches WorkerState::Draining(batch) ==> k < s0.len() && batch == joined(
                    s0.skip(k),
                ))
            };
        match w0 {
            WorkerState::Stopped => {
                assert(s == s0);
                assert(joined(sent) == joined(s.take(k0)));
            },
            WorkerState::Waiting => {
                match trace.last() {
                    Signal::Sample(line) => {
                        assert(s.take(k0) =~= s0.take(k0));
                        assert(s.skip(k0) =~= seq![line]);
                        assert(joined(sent) == joined(s.take(k0)));
                    },
                    _ => {
                        assert(joined(sent) == joined(s.take(k0)));
                    },
                }
            },
            WorkerState::Draining(batch) => {
                match trace.last() {
                    Signal::Sample(line) => {
                        assert(s.take(k0) =~= s0.take(k0));
                        assert(s.skip(k0) =~= s0.skip(k0).push(line));
                        lemma_joined_push(s0.skip(k0), line);
                        assert(joined(sent) == joined(s.take(k0)));
                    },
                    Signal::Empty => {
                        let k = s.len() as int;
                        assert(s.take(k) =~= s);
                        lemma_joined_push(sent0, batch);
                        if k0 == 0 {
                            assert(s0.skip(0) =~= s0);
                        } else {
                            lemma_joined_concat(s0.take(k0), s0.skip(k0));
                            assert(s0.take(k0) + s0.skip(k0) =~= s0);
                        }
                        assert(joined(sent) == joined(s.take(k)));
                    },
                    _ => {
                        assert(joined(sent) == joined(s.take(k0)));
                    },
                }
            },
        }
    }
}

impl MetricWorker {
    /// A worker that has seen nothing yet.
    pub fn new() -> (w: MetricWorker)
        ensures
            w@ == WorkerState::Waiting,
    {
        MetricWorker::Waiting
    }

    /// Whether the next look at the queue is to wait for an event. Where it
    /// is not, the look takes only what is there already.
    pub fn waits(&self) -> (r: bool)
        ensures
            r == (self@ is Waiting),
    {
        match self {
            MetricWorker::Waiting => true,
            _ => false,
        }
    }

    /// Whether the worker has ended.
    pub fn stopped(&self) -> (r: bool)
        ensures
            r == (self@ is Stopped),
    {
        match self {
            MetricWorker::Stopped => true,
            _ => false,
        }
    }

    /// Takes in what a look at the queue found. Gives the worker to go on
    /// with and the batch to hand to the sink now, if any.
    pub fn receive(self, polled: Polled) -> (r: (MetricWorker, Option<String>))
        ensures
            r.0@ == advance(self@, polled@).0,
            match r.1 {
                Some(batch) => advance(self@, polled@).1 == Some(batch@),
                None => advance(self@, polled@).1 is None,
            },
    {
        match self {
            MetricWorker::Waiting => match polled {
                Polled::Event(MetricEvent::Metric(line)) => (MetricWorker::Draining(line), None),
                Polled::Empty => (MetricWorker::Waiting, None),
                _ => (MetricWorker::Stopped, None),
            },
            MetricWorker::Draining(batch) => match polled {
                Polled::Event(MetricEvent::Metric(line)) => {
                    let mut longer = batch;
                    longer.push('\n');
                    push_text(&mut longer, line.as_str());
                    assert(longer@ =~= batch@ + seq!['\n'] + line@);
                    (MetricWorker::Draining(longer), None)
                },
                Polled::Empty => (MetricWorker::Waiting, Some(batch)),
                _ => (MetricWorker::Stopped, None),
            },
            MetricWorker::Stopped => (MetricWorker::Stopped, None),
        }
    }
}

} // verus!
