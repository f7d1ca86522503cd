//! The engine: what it is told to do, what it asks of the system meanwhile, and what it measures.
use vstd::prelude::*;
use crate::clock;
use crate::inject::Btn;
use crate::macros;
use crate::macros::{Real, Step};

verus! {

/// Buckets of the histogram, spread evenly over the logarithm of 10 us to 100 ms.
pub const NB: usize = 512;

/// What a job does.
#[derive(Clone, Copy, PartialEq, Eq, Structural, Debug)]
pub enum Mode {
    /// Fires a button again and again.
    AutoClick,
    /// The same loop, with motion by nothing in place of the click.
    Benchmark,
    /// Plays a list of steps.
    Sequence,
}

/// One thing for the engine to do.
#[derive(Debug)]
pub struct Job {
    pub mode: Mode,
    pub btn: Btn,
    pub cps: Real,
    pub hold_ms: Real,
    pub jitter_pct: Real,
    /// Stop by itself after this many events, or this many passes of a sequence.
    pub limit: Option<u64>,
    /// The steps of a sequence.
    pub steps: Vec<Step>,
    /// Divides the delays of a sequence.
    pub speed: Real,
}

/// What a job holds.
#[verifier::ext_equal]
pub struct JobModel {
    pub mode: Mode,
    pub btn: Btn,
    pub cps: Real,
    pub hold_ms: Real,
    pub jitter_pct: Real,
    pub limit: Option<u64>,
    pub steps: Seq<Step>,
    pub speed: Real,
}

impl View for Job {
    type V = JobModel;

    open spec fn view(&self) -> JobModel {
        JobModel {
            mode: self.mode,
            btn: self.btn,
            cps: self.cps,
            hold_ms: self.hold_ms,
            jitter_pct: self.jitter_pct,
            limit: self.limit,
            steps: self.steps@,
            speed: self.speed,
        }
    }
}

impl JobModel {
    /// Clicking without jitter and without an end.
    pub open spec fn click(btn: Btn, cps: Real, hold_ms: Real) -> JobModel {
        JobModel {
            mode: Mode::AutoClick,
            btn,
            cps,
            hold_ms,
            jitter_pct: Real { bits: macros::ZERO },
            limit: None,
            steps: seq![],
            speed: Real { bits: macros::ONE },
        }
    }
}

impl Job {
    pub fn click(btn: Btn, cps: Real, hold_ms: Real) -> (r: Self)
        ensures
            r@ == JobModel::click(btn, cps, hold_ms),
    {
        Job {
            mode: Mode::AutoClick,
            btn,
            cps,
            hold_ms,
            jitter_pct: Real { bits: macros::ZERO },
            limit: None,
            steps: Vec::new(),
            speed: Real { bits: macros::ONE },
        }
    }
}

/// What the engine may ask of the system while a job runs.
#[derive(Clone, Copy, PartialEq, Eq, Structural, Debug)]
pub struct Opts {
    pub time_critical: bool,
    pub pin_core: bool,
    pub raise_timer_period: bool,
}

impl Default for Opts {
    /// Raising the timer period is left out: the timer does not need it, and it costs battery.
    fn default() -> (r: Self)
        ensures
            r == (Opts { time_critical: true, pin_core: true, raise_timer_period: false }),
    {
        Opts { time_critical: true, pin_core: true, raise_timer_period: false }
    }
}

/// What the engine is told.
#[derive(Debug)]
pub enum Cmd {
    Start(Job, Opts),
    Stop,
    Quit,
}

/// What the engine hears when it listens without waiting.
#[derive(Debug)]
pub enum Heard {
    Nothing,
    Told(Cmd),
    /// Nobody can tell it anything any more.
    Gone,
}

/// What follows a job.
#[derive(Debug)]
pub enum Next {
    Idle,
    Run(Job, Opts),
    Quit,
}

/// How what is heard during a job ends it. A job that is to start is handed on, not dropped.
pub open spec fn ended_by(heard: Heard) -> Option<Next> {
    match heard {
        Heard::Nothing => None,
        Heard::Told(Cmd::Stop) => Some(Next::Idle),
        Heard::Told(Cmd::Quit) => Some(Next::Quit),
        Heard::Told(Cmd::Start(job, opts)) => Some(Next::Run(job, opts)),
        Heard::Gone => Some(Next::Quit),
    }
}

/// Whether what was heard ends the job, and what follows.
pub fn interrupted(heard: Heard) -> (r: Option<Next>)
    ensures
        r == ended_by(heard),
{
    match heard {
        Heard::Nothing => None,
        Heard::Told(Cmd::Stop) => Some(Next::Idle),
        Heard::Told(Cmd::Quit) => Some(Next::Quit),
        Heard::Told(Cmd::Start(job, opts)) => Some(Next::Run(job, opts)),
        Heard::Gone => Some(Next::Quit),
    }
}

/// Something to ask of the system around a job.
#[derive(Clone, Copy, PartialEq, Eq, Structural, Debug)]
pub enum Privilege {
    /// Raise the timer resolution.
    RaiseTimer,
    /// Give the timer resolution back.
    RestoreTimer,
    /// Run on the cores of this mask only.
    Affinity(usize),
    /// Take time-critical priority, or go back to normal.
    TimeCritical(bool),
}

/// What is asked for before a job on a machine with `cores` cores.
pub open spec fn engaged(opts: Opts, cores: usize) -> Seq<Privilege> {
    (if opts.raise_timer_period {
        seq![Privilege::RaiseTimer]
    } else {
        seq![]
    }) + (if opts.pin_core {
        seq![
            Privilege::Affinity(
                clock::core_mask(if cores == 0 { 0 } else { (cores - 1) as usize }),
            ),
        ]
    } else {
        seq![]
    }) + seq![Privilege::TimeCritical(opts.time_critical)]
}

/// What is given back of priority and cores after it.
pub open spec fn lowered(opts: Opts, cores: usize) -> Seq<Privilege> {
    seq![Privilege::TimeCritical(false)] + (if opts.pin_core {
        seq![Privilege::Affinity(clock::cores_mask(cores))]
    } else {
        seq![]
    })
}

/// What is given back of the timer.
pub open spec fn restored(opts: Opts) -> Seq<Privilege> {
    if opts.raise_timer_period {
        seq![Privilege::RestoreTimer]
    } else {
        seq![]
    }
}

/// All that is given back after a job: the timer comes last.
pub open spec fn released(opts: Opts, cores: usize) -> Seq<Privilege> {
    lowered(opts, cores) + restored(opts)
}

/// What to ask for before a job. A machine with more cores than a mask has bits cannot be pinned.
pub fn engage(opts: &Opts, cores: usize) -> (r: Vec<Privilege>)
    requires
        opts.pin_core ==> cores <= usize::BITS,
    ensures
        r@ == engaged(*opts, cores),
{
    let mut out: Vec<Privilege> = Vec::new();
    if opts.raise_timer_period {
        out.push(Privilege::RaiseTimer);
    }
    if opts.pin_core {
        out.push(Privilege::Affinity(clock::pin_mask(clock::preferred_core(cores))));
    }
    out.push(Privilege::TimeCritical(opts.time_critical));
    out
}

/// What to give back of priority and cores after a job.
pub fn lower(opts: &Opts, cores: usize) -> (r: Vec<Privilege>)
    ensures
        r@ == lowered(*opts, cores),
{
    let mut out: Vec<Privilege> = Vec::new();
    out.push(Privilege::TimeCritical(false));
    if opts.pin_core {
        out.push(Privilege::Affinity(clock::unpin_mask(cores)));
    }
    out
}

/// What to give back of the timer after a job.
pub fn restore(opts: &Opts) -> (r: Vec<Privilege>)
    ensures
        r@ == restored(*opts),
{
    let mut out: Vec<Privilege> = Vec::new();
    if opts.raise_timer_period {
        out.push(Privilege::RestoreTimer);
    }
    out
}

/// Whatever a job was given is given back when it ends: priority always, the timer resolution
/// where it was raised, the cores where they were restricted.
pub proof fn law_privileges_are_dropped(opts: Opts, cores: usize)
    ensures
        released(opts, cores)[0] == Privilege::TimeCritical(false),
        engaged(opts, cores).contains(Privilege::RaiseTimer) <==> released(opts, cores).contains(
            Privilege::RestoreTimer,
        ),
        (exists|m: usize| #[trigger] engaged(opts, cores).contains(Privilege::Affinity(m)))
            <==> released(opts, cores).contains(Privilege::Affinity(clock::cores_mask(cores))),
{
    let on = engaged(opts, cores);
    let off = released(opts, cores);
    let mask = clock::core_mask(if cores == 0 { 0 } else { (cores - 1) as usize });
    if opts.raise_timer_period {
        assert(on[0] == Privilege::RaiseTimer);
        assert(off[off.len() - 1] == Privilege::RestoreTimer);
    }
    if opts.pin_core {
        assert(on[on.len() - 2] == Privilege::Affinity(mask));
        assert(on.contains(Privilege::Affinity(mask)));
        assert(off[1] == Privilege::Affinity(clock::cores_mask(cores)));
    }
}

// ------------------------------------------------------------------ worker

/// What the engine's thread is to do.
#[derive(Debug)]
pub enum Order {
    /// Wait to be told.
    Listen,
    /// Clear the measurements.
    Clear,
    /// Ask the system for this, or give it back.
    Apply(Privilege),
    /// Show whether a job runs.
    Running(bool),
    /// Start counting anew what waiting costs.
    ForgetCost,
    /// Run this job.
    Work(Job),
    Exit,
}

/// What the engine's thread reports when its orders are carried out.
#[derive(Debug)]
pub enum News {
    /// What it was told; nothing where nobody is left to tell it anything.
    Told(Option<Cmd>),
    /// How the job ended.
    Ended(Next),
}

/// Where the engine's thread is.
#[derive(Clone, Copy, PartialEq, Eq, Structural, Debug)]
pub enum Post {
    /// Waiting to be told.
    Idle,
    /// Running a job with these options.
    Working(Opts),
    Gone,
}

/// The engine's thread on a machine with `cores` cores.
pub struct Worker {
    pub post: Post,
    pub cores: usize,
}

/// Each of these asked of the system.
pub open spec fn applied(privileges: Seq<Privilege>) -> Seq<Order> {
    Seq::new(privileges.len(), |i: int| Order::Apply(privileges[i]))
}

/// What goes before a job, and the job.
pub open spec fn opened(job: Job, opts: Opts, cores: usize) -> Seq<Order> {
    applied(engaged(opts, cores)) + seq![
        Order::Running(true),
        Order::ForgetCost,
        Order::Work(job),
    ]
}

/// What is cleared where another job follows at once. A job that is to start while none runs finds
/// the measurements cleared by whoever started it.
pub open spec fn cleared(more: bool) -> Seq<Order> {
    if more {
        seq![Order::Clear]
    } else {
        seq![]
    }
}

/// What comes after a job, whether or not another one follows at once.
pub open spec fn closed_down(opts: Opts, cores: usize, more: bool) -> Seq<Order> {
    seq![Order::Running(false)] + applied(lowered(opts, cores)) + cleared(more) + applied(
        restored(opts),
    )
}

impl Worker {
    /// Whether this can be news of what was ordered last.
    pub open spec fn expects(self, news: News) -> bool {
        match self.post {
            Post::Idle => news is Told,
            Post::Working(_) => news is Ended,
            Post::Gone => false,
        }
    }

    /// Whether the core that a job is to run on has a place in a mask.
    pub open spec fn room(self, news: News) -> bool {
        match news {
            News::Told(Some(Cmd::Start(_, opts))) => opts.pin_core ==> self.cores <= usize::BITS,
            News::Ended(Next::Run(_, opts)) => opts.pin_core ==> self.cores <= usize::BITS,
            _ => true,
        }
    }

    /// What news makes of the thread, and what it is to do next.
    ///
    /// Privileges are held for the length of a job only. One that is to start while another runs
    /// is not dropped: it is the next to begin.
    pub open spec fn ordered(self, news: News) -> (Post, Seq<Order>) {
        match (self.post, news) {
            (Post::Idle, News::Told(Some(Cmd::Start(job, opts)))) => (
                Post::Working(opts),
                opened(job, opts, self.cores),
            ),
            (Post::Idle, News::Told(Some(Cmd::Stop))) => (Post::Idle, seq![Order::Listen]),
            (Post::Idle, _) => (Post::Gone, seq![Order::Exit]),
            (Post::Working(opts), News::Ended(Next::Idle)) => (
                Post::Idle,
                closed_down(opts, self.cores, false).push(Order::Listen),
            ),
            (Post::Working(opts), News::Ended(Next::Run(job, more))) => (
                Post::Working(more),
                closed_down(opts, self.cores, true) + opened(job, more, self.cores),
            ),
            (Post::Working(opts), _) => (
                Post::Gone,
                closed_down(opts, self.cores, false).push(Order::Exit),
            ),
            (Post::Gone, _) => (Post::Gone, seq![Order::Exit]),
        }
    }

    /// A thread that is to listen first.
    pub fn new(cores: usize) -> (r: Self)
        ensures
            r.post == Post::Idle,
            r.cores == cores,
    {
        Worker { post: Post::Idle, cores }
    }

    /// Whether the core that a job is to run on has a place in a mask.
    pub fn fits(&self, news: &News) -> (r: bool)
        ensures
            r == self.room(*news),
    {
        match news {
            News::Told(Some(Cmd::Start(_, opts))) => {
                !opts.pin_core || self.cores <= usize::BITS as usize
            },
            News::Ended(Next::Run(_, opts)) => {
                !opts.pin_core || self.cores <= usize::BITS as usize
            },
            _ => true,
        }
    }

    fn open(&mut self, job: Job, opts: Opts, out: &mut Vec<Order>)
        requires
            opts.pin_core ==> old(self).cores <= usize::BITS,
        ensures
            final(self).post == Post::Working(opts),
            final(self).cores == old(self).cores,
            final(out)@ == old(out)@ + opened(job, opts, old(self).cores),
    {
        self.post = Post::Working(opts);
        apply_all(engage(&opts, self.cores), out);
        out.push(Order::Running(true));
        out.push(Order::ForgetCost);
        out.push(Order::Work(job));
        assert(out@ == old(out)@ + opened(job, opts, old(self).cores));
    }

    fn close_down(&self, opts: &Opts, more: bool, out: &mut Vec<Order>)
        ensures
            final(out)@ == old(out)@ + closed_down(*opts, self.cores, more),
    {
        out.push(Order::Running(false));
        apply_all(lower(opts, self.cores), out);
        if more {
            out.push(Order::Clear);
        }
        apply_all(restore(opts), out);
        assert(out@ == old(out)@ + closed_down(*opts, self.cores, more));
    }

    /// Takes in what came of the last orders, and gives the next ones, to be carried out in order.
    pub fn next(&mut self, news: News) -> (r: Vec<Order>)
        requires
            old(self).expects(news),
            old(self).room(news),
        ensures
            (final(self).post, r@) == old(self).ordered(news),
            final(self).cores == old(self).cores,
    {
        let mut out: Vec<Order> = Vec::new();
        if let Post::Working(opts) = self.post {
            let more: bool = match &news {
                News::Ended(Next::Run(_, _)) => true,
                _ => false,
            };
            self.close_down(&opts, more, &mut out);
            assert(out@ == closed_down(opts, self.cores, more));
        }
        match news {
            News::Told(Some(Cmd::Start(job, opts))) => {
                self.open(job, opts, &mut out);
                assert(out@ == opened(job, opts, old(self).cores));
            },
            News::Ended(Next::Run(job, opts)) => {
                self.open(job, opts, &mut out);
            },
            News::Told(Some(Cmd::Stop)) => {
                out.push(Order::Listen);
            },
            News::Ended(Next::Idle) => {
                self.post = Post::Idle;
                out.push(Order::Listen);
            },
            _ => {
                self.post = Post::Gone;
                out.push(Order::Exit);
            },
        }
        out
    }
}

fn apply_all(privileges: Vec<Privilege>, out: &mut Vec<Order>)
    ensures
        final(out)@ == old(out)@ + applied(privileges@),
{
    let mut i: usize = 0;
    while i < privileges.len()
        invariant
            i <= privileges.len(),
            out@ == old(out)@ + applied(privileges@.take(i as int)),
        decreases privileges.len() - i,
    {
        out.push(Order::Apply(privileges[i]));
        i += 1;
    }
    assert(privileges@.take(i as int) == privileges@);
}

/// A job that is to start while another runs is never dropped: it is the next one to begin, with
/// its own options, and the measurements are cleared before it.
pub proof fn law_start_is_never_dropped(w: Worker, job: Job, opts: Opts)
    requires
        w.post is Working,
    ensures
        ended_by(Heard::Told(Cmd::Start(job, opts))) matches Some(next) && {
            let (post, orders) = w.ordered(News::Ended(next));
            let over = closed_down(w.post->Working_0, w.cores, true);
            &&& post == Post::Working(opts)
            &&& orders == over + opened(job, opts, w.cores)
            &&& over.contains(Order::Clear)
            &&& orders.last() == Order::Work(job)
        },
{
    let last = w.post->Working_0;
    let before = seq![Order::Running(false)] + applied(lowered(last, w.cores));
    assert(closed_down(last, w.cores, true)[before.len() as int] == Order::Clear);
}

// ---------------------------------------------------------- bracket of a job

/// How things stand with the system and with what is shown.
pub struct Standing {
    pub running: bool,
    pub critical: bool,
    pub raised: bool,
    /// The mask that the thread was last given; nothing where it was never given one.
    pub affinity: Option<usize>,
}

impl Standing {
    /// How things stand before any job.
    pub open spec fn at_rest() -> Standing {
        Standing { running: false, critical: false, raised: false, affinity: None }
    }

    /// How things stand after one order.
    pub open spec fn under(self, order: Order) -> Standing {
        match order {
            Order::Running(on) => Standing { running: on, ..self },
            Order::Apply(Privilege::RaiseTimer) => Standing { raised: true, ..self },
            Order::Apply(Privilege::RestoreTimer) => Standing { raised: false, ..self },
            Order::Apply(Privilege::Affinity(mask)) => Standing { affinity: Some(mask), ..self },
            Order::Apply(Privilege::TimeCritical(on)) => Standing { critical: on, ..self },
            _ => self,
        }
    }

    /// How things stand after a run of orders.
    pub open spec fn after(self, orders: Seq<Order>) -> Standing
        decreases orders.len(),
    {
        if orders.len() == 0 {
            self
        } else {
            self.after(orders.drop_last()).under(orders.last())
        }
    }

    /// Whether nothing of any job is left: none runs, and what was taken was given back.
    pub open spec fn quiet(self, cores: usize) -> bool {
        &&& !self.running
        &&& !self.critical
        &&& !self.raised
        &&& self.affinity is None || self.affinity == Some(clock::cores_mask(cores))
    }

    /// Whether a job with these options runs with what it asked for, and nothing more.
    pub open spec fn serving(self, opts: Opts, cores: usize) -> bool {
        &&& self.running
        &&& self.critical == opts.time_critical
        &&& self.raised == opts.raise_timer_period
        &&& if opts.pin_core {
            self.affinity == Some(
                clock::core_mask(if cores == 0 { 0 } else { (cores - 1) as usize }),
            )
        } else {
            self.affinity is None || self.affinity == Some(clock::cores_mask(cores))
        }
    }
}

proof fn lemma_orders_add_up(s: Standing, a: Seq<Order>, b: Seq<Order>)
    ensures
        s.after(a + b) == s.after(a).after(b),
    decreases b.len(),
{
    if b.len() == 0 {
        assert(a + b == a);
    } else {
        assert((a + b).drop_last() == a + b.drop_last());
        lemma_orders_add_up(s, a, b.drop_last());
    }
}

proof fn lemma_one_order(s: Standing, order: Order)
    ensures
        s.after(seq![order]) == s.under(order),
{
    assert(seq![order].drop_last() == Seq::<Order>::empty());
    assert(s.after(Seq::<Order>::empty()) == s);
}

proof fn lemma_applied(s: Standing, a: Seq<Privilege>, b: Seq<Privilege>)
    ensures
        s.after(applied(a + b)) == s.after(applied(a)).after(applied(b)),
        applied(Seq::<Privilege>::empty()) == Seq::<Order>::empty(),
{
    assert(applied(a + b) == applied(a) + applied(b));
    lemma_orders_add_up(s, applied(a), applied(b));
}

proof fn lemma_one_applied(s: Standing, p: Privilege)
    ensures
        s.after(applied(seq![p])) == s.under(Order::Apply(p)),
        s.after(applied(Seq::empty())) == s,
{
    assert(applied(seq![p]) == seq![Order::Apply(p)]);
    lemma_one_order(s, Order::Apply(p));
    assert(applied(Seq::<Privilege>::empty()) == Seq::<Order>::empty());
}

proof fn lemma_opened(s: Standing, job: Job, opts: Opts, cores: usize)
    requires
        s.quiet(cores),
    ensures
        s.after(opened(job, opts, cores)).serving(opts, cores),
{
    let mask = clock::core_mask(if cores == 0 { 0 } else { (cores - 1) as usize });
    let raise = if opts.raise_timer_period {
        seq![Privilege::RaiseTimer]
    } else {
        seq![]
    };
    let pin = if opts.pin_core {
        seq![Privilege::Affinity(mask)]
    } else {
        seq![]
    };
    let critical = seq![Privilege::TimeCritical(opts.time_critical)];
    let rest = seq![Order::Running(true), Order::ForgetCost, Order::Work(job)];
    let on = applied(engaged(opts, cores));
    lemma_orders_add_up(s, on, rest);
    lemma_applied(s, raise + pin, critical);
    lemma_applied(s, raise, pin);
    lemma_one_applied(s, Privilege::RaiseTimer);
    let raised = s.after(applied(raise));
    lemma_one_applied(raised, Privilege::Affinity(mask));
    let pinned = raised.after(applied(pin));
    lemma_one_applied(pinned, Privilege::TimeCritical(opts.time_critical));
    let taken = s.after(on);
    assert(rest == seq![Order::Running(true)] + seq![Order::ForgetCost] + seq![Order::Work(job)]);
    lemma_orders_add_up(
        taken,
        seq![Order::Running(true)] + seq![Order::ForgetCost],
        seq![Order::Work(job)],
    );
    lemma_orders_add_up(taken, seq![Order::Running(true)], seq![Order::ForgetCost]);
    lemma_one_order(taken, Order::Running(true));
    let running = taken.under(Order::Running(true));
    lemma_one_order(running, Order::ForgetCost);
    lemma_one_order(running, Order::Work(job));
}

proof fn lemma_closed_down(s: Standing, opts: Opts, cores: usize, more: bool)
    requires
        s.serving(opts, cores),
    ensures
        s.after(closed_down(opts, cores, more)).quiet(cores),
{
    let normal = seq![Privilege::TimeCritical(false)];
    let unpin = if opts.pin_core {
        seq![Privilege::Affinity(clock::cores_mask(cores))]
    } else {
        seq![]
    };
    let low = applied(lowered(opts, cores));
    let timer = applied(restored(opts));
    let stop = seq![Order::Running(false)];
    lemma_orders_add_up(s, stop + low + cleared(more), timer);
    lemma_orders_add_up(s, stop + low, cleared(more));
    lemma_orders_add_up(s, stop, low);
    lemma_one_order(s, Order::Running(false));
    let stopped = s.under(Order::Running(false));
    lemma_applied(stopped, normal, unpin);
    lemma_one_applied(stopped, Privilege::TimeCritical(false));
    let calm = stopped.after(applied(normal));
    lemma_one_applied(calm, Privilege::Affinity(clock::cores_mask(cores)));
    let free = calm.after(applied(unpin));
    lemma_one_order(free, Order::Clear);
    lemma_one_applied(free, Privilege::RestoreTimer);
}

impl Worker {
    /// The thread after a run of news.
    pub open spec fn after(self, news: Seq<News>) -> Worker
        decreases news.len(),
    {
        if news.len() == 0 {
            self
        } else {
            let before = self.after(news.drop_last());
            Worker { post: before.ordered(news.last()).0, ..before }
        }
    }

    /// All orders it gave on the way.
    pub open spec fn orders(self, news: Seq<News>) -> Seq<Order>
        decreases news.len(),
    {
        if news.len() == 0 {
            Seq::empty()
        } else {
            self.orders(news.drop_last()) + self.after(news.drop_last()).ordered(news.last()).1
        }
    }

    /// Whether all news was of what was ordered last.
    pub open spec fn answered(self, news: Seq<News>) -> bool
        decreases news.len(),
    {
        news.len() == 0 || {
            &&& self.answered(news.drop_last())
            &&& self.after(news.drop_last()).expects(news.last())
        }
    }
}

/// Every job is bracketed, whatever the thread is told and however its jobs end: while one runs it
/// is shown to run and has what its own options ask for and no more; whenever none runs, none is
/// shown to, and priority, cores and timer are as they were.
pub proof fn law_jobs_are_bracketed(w: Worker, news: Seq<News>)
    requires
        w.post == Post::Idle,
        w.answered(news),
    ensures
        ({
            let after = w.after(news);
            let standing = Standing::at_rest().after(w.orders(news));
            &&& after.cores == w.cores
            &&& match after.post {
                Post::Working(opts) => standing.serving(opts, w.cores),
                _ => standing.quiet(w.cores),
            }
        }),
    decreases news.len(),
{
    if news.len() > 0 {
        let init = news.drop_last();
        law_jobs_are_bracketed(w, init);
        let before = w.after(init);
        let standing = Standing::at_rest().after(w.orders(init));
        let orders = before.ordered(news.last()).1;
        lemma_orders_add_up(Standing::at_rest(), w.orders(init), orders);
        match (before.post, news.last()) {
            (Post::Idle, News::Told(Some(Cmd::Start(job, opts)))) => {
                lemma_opened(standing, job, opts, w.cores);
            },
            (Post::Working(opts), News::Ended(next)) => {
                let closing = closed_down(opts, w.cores, next is Run);
                lemma_closed_down(standing, opts, w.cores, next is Run);
                let quiet = standing.after(closing);
                match next {
                    Next::Run(job, more) => {
                        lemma_orders_add_up(standing, closing, opened(job, more, w.cores));
                        lemma_opened(quiet, job, more, w.cores);
                    },
                    Next::Idle => {
                        assert(closing.push(Order::Listen).drop_last() == closing);
                    },
                    Next::Quit => {
                        assert(closing.push(Order::Exit).drop_last() == closing);
                    },
                }
            },
            (_, News::Told(Some(Cmd::Stop))) => {
                lemma_one_order(standing, Order::Listen);
            },
            _ => {
                lemma_one_order(standing, Order::Exit);
            },
        }
    }
}

/// Two jobs and a quit: the second is started while the first runs and follows it at once, each
/// between what its options ask for and its return, with the measurements cleared in between.
pub proof fn law_two_jobs_and_a_quit(cores: usize, a: Job, oa: Opts, b: Job, ob: Opts)
    ensures
        ({
            let w = Worker { post: Post::Idle, cores };
            let news = seq![
                News::Told(Some(Cmd::Start(a, oa))),
                News::Ended(ended_by(Heard::Told(Cmd::Start(b, ob)))->0),
                News::Ended(ended_by(Heard::Told(Cmd::Quit))->0),
            ];
            &&& w.answered(news)
            &&& w.after(news).post == Post::Gone
            &&& w.orders(news) == opened(a, oa, cores) + closed_down(oa, cores, true) + opened(
                b,
                ob,
                cores,
            ) + closed_down(ob, cores, false) + seq![Order::Exit]
        }),
{
    let w = Worker { post: Post::Idle, cores };
    let first = News::Told(Some(Cmd::Start(a, oa)));
    let second = News::Ended(Next::Run(b, ob));
    let third = News::Ended(Next::Quit);
    let news = seq![first, second, third];
    let none = Seq::<News>::empty();
    assert(news.drop_last() == seq![first, second]);
    assert(seq![first, second].drop_last() == seq![first]);
    assert(seq![first].drop_last() == none);
    assert(w.after(none) == w && w.answered(none) && w.orders(none) == Seq::<Order>::empty());
    assert(w.after(seq![first]).post == Post::Working(oa));
    assert(w.orders(seq![first]) == opened(a, oa, cores));
    assert(w.after(seq![first, second]).post == Post::Working(ob));
    let (x, y, z, v) = (
        opened(a, oa, cores),
        closed_down(oa, cores, true),
        opened(b, ob, cores),
        closed_down(ob, cores, false),
    );
    assert(w.orders(seq![first, second]) == x + (y + z));
    assert(w.answered(seq![first]));
    assert(w.answered(seq![first, second]));
    assert(w.answered(news));
    assert(w.after(news).post == Post::Gone);
    assert(w.orders(news) == x + (y + z) + v.push(Order::Exit));
    assert(x + (y + z) + v.push(Order::Exit) == x + y + z + v + seq![Order::Exit]);
    assert(ended_by(Heard::Told(Cmd::Start(b, ob)))->0 == Next::Run(b, ob));
    assert(ended_by(Heard::Told(Cmd::Quit))->0 == Next::Quit);
}

// --------------------------------------------------------------- telemetry

/// What the engine measures. It alone writes; others read copies.
#[derive(Debug)]
pub struct Tel {
    pub running: bool,
    pub events: u64,
    /// Periods by bucket.
    pub hist: Vec<u32>,
    pub min_ns: u64,
    pub max_ns: u64,
    pub sum_ns: u64,
    pub count: u64,
    /// Hundredths of a percent of the time that were spun.
    pub spin_pct: u32,
    /// The waiter's margin in microseconds.
    pub margin_us: u32,
    pub started: i64,
}

/// What telemetry holds.
#[verifier::ext_equal]
pub struct TelModel {
    pub running: bool,
    pub events: u64,
    pub hist: Seq<u32>,
    pub min_ns: u64,
    pub max_ns: u64,
    pub sum_ns: u64,
    pub count: u64,
    pub spin_pct: u32,
    pub margin_us: u32,
    pub started: i64,
}

impl View for Tel {
    type V = TelModel;

    open spec fn view(&self) -> TelModel {
        TelModel {
            running: self.running,
            events: self.events,
            hist: self.hist@,
            min_ns: self.min_ns,
            max_ns: self.max_ns,
            sum_ns: self.sum_ns,
            count: self.count,
            spin_pct: self.spin_pct,
            margin_us: self.margin_us,
            started: self.started,
        }
    }
}

/// A histogram with nothing in it.
pub open spec fn no_samples() -> Seq<u32> {
    Seq::new(NB as nat, |i: int| 0u32)
}

/// The shortest period as it is shown: zero where there is none.
pub open spec fn least_shown(min_ns: u64) -> u64 {
    if min_ns == u64::MAX {
        0
    } else {
        min_ns
    }
}

/// The samples in the first `n` buckets.
pub open spec fn samples(hist: Seq<u32>, n: nat) -> nat
    decreases n,
{
    if n == 0 {
        0
    } else {
        samples(hist, (n - 1) as nat) + hist[n - 1] as nat
    }
}

impl TelModel {
    pub open spec fn wf(self) -> bool {
        self.hist.len() == NB
    }

    /// Telemetry with its measurements cleared.
    pub open spec fn cleared(self, now: i64) -> TelModel {
        TelModel {
            events: 0,
            hist: no_samples(),
            min_ns: u64::MAX,
            max_ns: 0,
            sum_ns: 0,
            count: 0,
            started: now,
            ..self
        }
    }

    /// Telemetry with one more period of `ns` in it; a period that is not positive is none.
    pub open spec fn with_sample(self, ns: i64, bucket: int) -> TelModel {
        if ns <= 0 {
            self
        } else {
            TelModel {
                hist: self.hist.update(
                    bucket,
                    ((self.hist[bucket] + 1) as nat % 0x1_0000_0000) as u32,
                ),
                sum_ns: ((self.sum_ns + ns) as nat % 0x1_0000_0000_0000_0000) as u64,
                count: ((self.count + 1) as nat % 0x1_0000_0000_0000_0000) as u64,
                min_ns: if (ns as u64) < self.min_ns { ns as u64 } else { self.min_ns },
                max_ns: if (ns as u64) > self.max_ns { ns as u64 } else { self.max_ns },
                ..self
            }
        }
    }
}

fn zeros() -> (r: Vec<u32>)
    ensures
        r@ == no_samples(),
{
    let mut v: Vec<u32> = Vec::new();
    let mut i: usize = 0;
    while i < NB
        invariant
            i <= NB,
            v@ == no_samples().take(i as int),
        decreases NB - i,
    {
        v.push(0);
        i += 1;
    }
    v
}

impl Tel {
    pub fn new() -> (r: Self)
        ensures
            r@ == (TelModel {
                running: false,
                events: 0,
                hist: no_samples(),
                min_ns: u64::MAX,
                max_ns: 0,
                sum_ns: 0,
                count: 0,
                spin_pct: 0,
                margin_us: 0,
                started: 0,
            }),
            r@.wf(),
    {
        Tel {
            running: false,
            events: 0,
            hist: zeros(),
            min_ns: u64::MAX,
            max_ns: 0,
            sum_ns: 0,
            count: 0,
            spin_pct: 0,
            margin_us: 0,
            started: 0,
        }
    }

    /// Clears the measurements at `now`.
    pub fn reset(&mut self, now: i64)
        ensures
            final(self)@ == old(self)@.cleared(now),
            final(self)@.wf(),
    {
        self.events = 0;
        self.hist = zeros();
        self.min_ns = u64::MAX;
        self.max_ns = 0;
        self.sum_ns = 0;
        self.count = 0;
        self.started = now;
    }

    /// Takes in a period of `ns`, which belongs in `bucket`.
    pub fn record(&mut self, ns: i64, bucket: usize)
        requires
            old(self)@.wf(),
            bucket < NB,
        ensures
            final(self)@ == old(self)@.with_sample(ns, bucket as int),
            final(self)@.wf(),
    {
        if ns <= 0 {
            return;
        }
        let u: u64 = ns as u64;
        let c: u32 = self.hist[bucket];
        self.hist.set(bucket, c.wrapping_add(1));
        self.sum_ns = self.sum_ns.wrapping_add(u);
        self.count = self.count.wrapping_add(1);
        if u < self.min_ns {
            self.min_ns = u;
        }
        if u > self.max_ns {
            self.max_ns = u;
        }
    }

    /// A copy to look at.
    pub fn snapshot(&self) -> (r: Snap)
        requires
            self@.wf(),
        ensures
            r.hist@ == self.hist@,
            r.total == samples(self.hist@, NB as nat),
            r.events == self.events,
            r.min_ns == least_shown(self.min_ns),
            r.max_ns == self.max_ns,
            r.sum_ns == self.sum_ns,
            r.count == self.count,
            r.spin_pct == self.spin_pct,
            r.margin_us == self.margin_us,
            r.running == self.running,
            r.wf(),
    {
        let mut hist: Vec<u32> = Vec::new();
        let mut total: u64 = 0;
        let mut i: usize = 0;
        while i < NB
            invariant
                i <= NB,
                self.hist@.len() == NB,
                hist@ == self.hist@.take(i as int),
                total == samples(self.hist@, i as nat),
                total <= i * 0xffff_ffff,
            decreases NB - i,
        {
            let c: u32 = self.hist[i];
            hist.push(c);
            total = total + c as u64;
            i += 1;
        }
        Snap {
            hist,
            total,
            events: self.events,
            min_ns: if self.min_ns == u64::MAX {
                0
            } else {
                self.min_ns
            },
            max_ns: self.max_ns,
            sum_ns: self.sum_ns,
            count: self.count,
            spin_pct: self.spin_pct,
            margin_us: self.margin_us,
            running: self.running,
        }
    }
}

/// A copy of the telemetry.
#[derive(Debug)]
pub struct Snap {
    pub hist: Vec<u32>,
    /// Samples in the histogram.
    pub total: u64,
    pub events: u64,
    /// The shortest period, zero where there is none.
    pub min_ns: u64,
    pub max_ns: u64,
    pub sum_ns: u64,
    pub count: u64,
    pub spin_pct: u32,
    pub margin_us: u32,
    pub running: bool,
}

/// Whether `bucket` is the first in which the samples so far reach `target`; the last bucket
/// where they never do.
pub open spec fn reaches(hist: Seq<u32>, target: int, bucket: int) -> bool {
    &&& 0 <= bucket < NB
    &&& forall|j: int| 0 <= j < bucket ==> #[trigger] samples(hist, (j + 1) as nat) < target
    &&& samples(hist, (bucket + 1) as nat) >= target || bucket == NB - 1
}

impl Snap {
    pub open spec fn wf(self) -> bool {
        &&& self.hist@.len() == NB
        &&& self.total == samples(self.hist@, NB as nat)
    }

    /// The bucket in which `target` samples are reached, one at least; nothing where there are none
    /// at all.
    pub fn percentile(&self, target: u64) -> (r: Option<usize>)
        requires
            self.wf(),
        ensures
            r is None <==> self.total == 0,
            r matches Some(bucket) ==> reaches(
                self.hist@,
                if target == 0 {
                    1
                } else {
                    target as int
                },
                bucket as int,
            ),
    {
        if self.total == 0 {
            return None;
        }
        let wanted: u64 = if target == 0 {
            1
        } else {
            target
        };
        let mut acc: u64 = 0;
        let mut i: usize = 0;
        while i < NB
            invariant
                i <= NB,
                self.total != 0,
                wanted == if target == 0 {
                    1
                } else {
                    target
                },
                self.hist@.len() == NB,
                acc == samples(self.hist@, i as nat),
                acc <= i * 0xffff_ffff,
                forall|j: int|
                    0 <= j < i ==> #[trigger] samples(self.hist@, (j + 1) as nat) < wanted,
            decreases NB - i,
        {
            acc = acc + self.hist[i] as u64;
            if acc >= wanted {
                return Some(i);
            }
            i += 1;
        }
        Some(NB - 1)
    }

    /// The highest bucket, but at least one, to scale a picture by.
    pub fn peak(&self) -> (r: u32)
        ensures
            r >= 1,
            forall|i: int| 0 <= i < self.hist@.len() ==> self.hist@[i] <= r,
            r == 1 || self.hist@.contains(r),
    {
        let mut best: u32 = 1;
        let mut i: usize = 0;
        while i < self.hist.len()
            invariant
                i <= self.hist.len(),
                best >= 1,
                forall|j: int| 0 <= j < i ==> self.hist@[j] <= best,
                best == 1 || self.hist@.contains(best),
            decreases self.hist.len() - i,
        {
            if self.hist[i] > best {
                best = self.hist[i];
                assert(self.hist@[i as int] == best);
            }
            i += 1;
        }
        best
    }
}

/// Percentiles are in order: a higher target is never reached in a lower bucket.
pub proof fn law_percentiles_in_order(
    hist: Seq<u32>,
    low: int,
    high: int,
    low_bucket: int,
    high_bucket: int,
)
    requires
        low <= high,
        reaches(hist, low, low_bucket),
        reaches(hist, high, high_bucket),
    ensures
        low_bucket <= high_bucket,
        low == high ==> low_bucket == high_bucket,
{
    if high_bucket < low_bucket {
        assert(samples(hist, (high_bucket + 1) as nat) < low);
    }
    if low_bucket < high_bucket {
        assert(samples(hist, (low_bucket + 1) as nat) < high);
    }
}

/// A percentile lies where samples are: no bucket is named in which there is none.
pub proof fn law_percentiles_hit_samples(hist: Seq<u32>, target: int, bucket: int)
    requires
        1 <= target <= samples(hist, NB as nat),
        reaches(hist, target, bucket),
    ensures
        hist[bucket] > 0,
{
    let before = bucket - 1;
    if bucket > 0 {
        assert(samples(hist, (before + 1) as nat) < target);
    }
    assert(samples(hist, (bucket + 1) as nat) == samples(hist, bucket as nat) + hist[bucket]);
}

proof fn lemma_samples_update(hist: Seq<u32>, bucket: int, value: u32, n: nat)
    requires
        0 <= bucket < hist.len(),
        n <= hist.len(),
    ensures
        samples(hist.update(bucket, value), n) == samples(hist, n) + if bucket < n {
            value - hist[bucket]
        } else {
            0
        },
    decreases n,
{
    if n > 0 {
        lemma_samples_update(hist, bucket, value, (n - 1) as nat);
    }
}

proof fn lemma_bucket_within_samples(hist: Seq<u32>, bucket: int, n: nat)
    requires
        0 <= bucket < n <= hist.len(),
    ensures
        hist[bucket] <= samples(hist, n),
    decreases n,
{
    if bucket < n - 1 {
        lemma_bucket_within_samples(hist, bucket, (n - 1) as nat);
    }
}

/// Every period is counted once: the histogram holds as many samples as were counted, the
/// extremes enclose each of them, and the sum is theirs, until a counter runs out.
pub proof fn law_samples_are_counted(t: TelModel, ns: i64, bucket: int)
    requires
        t.wf(),
        0 <= bucket < NB,
        samples(t.hist, NB as nat) == t.count,
        t.count < u32::MAX,
        t.sum_ns + ns <= u64::MAX,
    ensures
        ({
            let after = t.with_sample(ns, bucket);
            &&& samples(after.hist, NB as nat) == after.count
            &&& ns > 0 ==> {
                &&& after.count == t.count + 1
                &&& after.sum_ns == t.sum_ns + ns
                &&& after.min_ns <= ns <= after.max_ns
                &&& after.min_ns <= t.min_ns
                &&& t.max_ns <= after.max_ns
            }
            &&& ns <= 0 ==> after == t
        }),
{
    if ns > 0 {
        lemma_bucket_within_samples(t.hist, bucket, NB as nat);
        lemma_samples_update(t.hist, bucket, (t.hist[bucket] + 1) as u32, NB as nat);
    }
}

// -------------------------------------------------------------- all samples

/// The periods among what was recorded: those that are positive.
pub open spec fn periods(recorded: Seq<(i64, int)>) -> Seq<i64>
    decreases recorded.len(),
{
    if recorded.len() == 0 {
        Seq::empty()
    } else {
        let before = periods(recorded.drop_last());
        if recorded.last().0 > 0 {
            before.push(recorded.last().0)
        } else {
            before
        }
    }
}

/// The sum of periods.
pub open spec fn sum_of(xs: Seq<i64>) -> int
    decreases xs.len(),
{
    if xs.len() == 0 {
        0
    } else {
        sum_of(xs.drop_last()) + xs.last()
    }
}

impl TelModel {
    /// Telemetry after a run of samples, each with its bucket.
    pub open spec fn with_samples(self, recorded: Seq<(i64, int)>) -> TelModel
        decreases recorded.len(),
    {
        if recorded.len() == 0 {
            self
        } else {
            let (ns, bucket) = recorded.last();
            self.with_samples(recorded.drop_last()).with_sample(ns, bucket)
        }
    }
}

proof fn lemma_periods_are_positive(recorded: Seq<(i64, int)>)
    ensures
        forall|i: int| 0 <= i < periods(recorded).len() ==> #[trigger] periods(recorded)[i] > 0,
        periods(recorded).len() <= sum_of(periods(recorded)),
    decreases recorded.len(),
{
    if recorded.len() > 0 {
        lemma_periods_are_positive(recorded.drop_last());
        let before = periods(recorded.drop_last());
        assert(before.push(recorded.last().0).drop_last() == before);
    }
}

proof fn lemma_empty_histogram(n: nat)
    requires
        n <= NB,
    ensures
        samples(no_samples(), n) == 0,
    decreases n,
{
    if n > 0 {
        lemma_empty_histogram((n - 1) as nat);
    }
}

/// What a snapshot says of all samples since the measurements were cleared: how many there were,
/// their exact sum, the shortest and the longest; and zeros where there was none. This holds until
/// a counter runs out.
pub proof fn law_snapshot_of_all_samples(t: TelModel, now: i64, recorded: Seq<(i64, int)>)
    requires
        forall|i: int| 0 <= i < recorded.len() ==> 0 <= (#[trigger] recorded[i]).1 < NB,
        periods(recorded).len() <= u32::MAX,
        sum_of(periods(recorded)) <= u64::MAX,
    ensures
        ({
            let after = t.cleared(now).with_samples(recorded);
            let xs = periods(recorded);
            &&& after.wf()
            &&& samples(after.hist, NB as nat) == xs.len()
            &&& after.count == xs.len()
            &&& after.sum_ns == sum_of(xs)
            &&& forall|i: int|
                0 <= i < xs.len() ==> least_shown(after.min_ns) <= #[trigger] xs[i] <= after.max_ns
            &&& xs.len() > 0 ==> xs.contains(least_shown(after.min_ns) as i64) && xs.contains(
                after.max_ns as i64,
            )
            &&& xs.len() == 0 ==> after.min_ns == u64::MAX && after.max_ns == 0
            &&& xs.len() == 0 ==> least_shown(after.min_ns) == 0
        }),
    decreases recorded.len(),
{
    let xs = periods(recorded);
    lemma_periods_are_positive(recorded);
    if recorded.len() == 0 {
        lemma_empty_histogram(NB as nat);
    } else {
        let init = recorded.drop_last();
        let (ns, bucket) = recorded.last();
        let before = t.cleared(now).with_samples(init);
        let ys = periods(init);
        assert(forall|i: int| 0 <= i < init.len() ==> init[i] == recorded[i]);
        assert(recorded[recorded.len() - 1] == recorded.last());
        if ns > 0 {
            assert(xs.drop_last() == ys);
        }
        law_snapshot_of_all_samples(t, now, init);
        lemma_periods_are_positive(init);
        if ns > 0 {
            law_samples_are_counted(before, ns, bucket);
            assert(xs[ys.len() as int] == ns);
            assert(xs.contains(ns));
            if ys.len() > 0 {
                let k = choose|k: int| 0 <= k < ys.len() && ys[k] == least_shown(
                    before.min_ns,
                ) as i64;
                assert(ys[k] > 0);
            }
            assert(forall|i: int| 0 <= i < ys.len() ==> #[trigger] xs[i] == ys[i]);
            assert forall|y: i64| ys.contains(y) implies xs.contains(y) by {
                let k = choose|k: int| 0 <= k < ys.len() && ys[k] == y;
                assert(xs[k] == y);
            }
        }
    }
}

// ------------------------------------------------------ as told, as measured

/// What is told during a job ends it: a stop or a quit as such, the loss of everyone who could tell
/// anything as a quit, and a new job with that very job to follow, with its own options. Only where
/// nothing is told it goes on.
pub proof fn law_what_is_told_ends_a_job(job: Job, opts: Opts, heard: Heard)
    ensures
        ended_by(Heard::Told(Cmd::Start(job, opts))) == Some(Next::Run(job, opts)),
        ended_by(Heard::Told(Cmd::Stop)) == Some(Next::Idle),
        ended_by(Heard::Told(Cmd::Quit)) == Some(Next::Quit),
        ended_by(Heard::Gone) == Some(Next::Quit),
        ended_by(heard) is None <==> heard is Nothing,
{
}

/// The thread runs the job that it was told to, last of all its orders, after it was shown to run
/// and with the cost of waiting counted anew. While idle a stop has it listen on, and a quit, or the
/// loss of everyone who could tell it anything, has it leave at once.
pub proof fn law_the_thread_does_as_told(w: Worker, job: Job, opts: Opts)
    requires
        w.post == Post::Idle,
    ensures
        ({
            let (post, orders) = w.ordered(News::Told(Some(Cmd::Start(job, opts))));
            let n = orders.len();
            &&& post == Post::Working(opts)
            &&& n >= 4
            &&& orders[n - 1] == Order::Work(job)
            &&& orders[n - 2] == Order::ForgetCost
            &&& orders[n - 3] == Order::Running(true)
            &&& orders[n - 4] == Order::Apply(Privilege::TimeCritical(opts.time_critical))
            &&& !orders.contains(Order::Clear)
        }),
        w.ordered(News::Told(Some(Cmd::Stop))) == (Post::Idle, seq![Order::Listen]),
        w.ordered(News::Told(Some(Cmd::Quit))) == (Post::Gone, seq![Order::Exit]),
        w.ordered(News::Told(None)) == (Post::Gone, seq![Order::Exit]),
{
}

/// After a job it is shown at once that none runs, and then everything is given back: priority
/// first, the cores where they were restricted, the timer last where it was raised. Then the thread
/// listens, leaves, or goes on to the next job, with the measurements cleared for that one only.
pub proof fn law_a_job_is_closed_down(w: Worker, opts: Opts, job: Job, more: Opts)
    requires
        w.post == Post::Working(opts),
    ensures
        ({
            let (idle, rest) = w.ordered(News::Ended(Next::Idle));
            let (gone, end) = w.ordered(News::Ended(Next::Quit));
            let (working, on) = w.ordered(News::Ended(Next::Run(job, more)));
            &&& idle == Post::Idle
            &&& gone == Post::Gone
            &&& working == Post::Working(more)
            &&& rest[0] == Order::Running(false)
            &&& rest[1] == Order::Apply(Privilege::TimeCritical(false))
            &&& rest.last() == Order::Listen
            &&& end.last() == Order::Exit
            &&& rest.drop_last() == end.drop_last()
            &&& on[0] == Order::Running(false)
            &&& on[1] == Order::Apply(Privilege::TimeCritical(false))
            &&& on.contains(Order::Clear)
            &&& on.last() == Order::Work(job)
            &&& !rest.contains(Order::Clear)
            &&& opts.pin_core ==> rest[2] == Order::Apply(
                Privilege::Affinity(clock::cores_mask(w.cores)),
            )
            &&& opts.raise_timer_period ==> rest[rest.len() - 2] == Order::Apply(
                Privilege::RestoreTimer,
            )
            &&& rest.len() == 3 + (if opts.pin_core {
                1int
            } else {
                0
            }) + if opts.raise_timer_period {
                1int
            } else {
                0
            }
        }),
{
    let before = seq![Order::Running(false)] + applied(lowered(opts, w.cores));
    let (_, on) = w.ordered(News::Ended(Next::Run(job, more)));
    assert(on[before.len() as int] == Order::Clear);
    let (_, rest) = w.ordered(News::Ended(Next::Idle));
    let (_, end) = w.ordered(News::Ended(Next::Quit));
    assert(rest.drop_last() == end.drop_last());
    assert(rest[1] == applied(lowered(opts, w.cores))[0]);
    assert(on[1] == applied(lowered(opts, w.cores))[0]);
    if opts.pin_core {
        assert(rest[2] == applied(lowered(opts, w.cores))[1]);
    }
    if opts.raise_timer_period {
        assert(rest[rest.len() - 2] == applied(restored(opts))[0]);
    }
}

/// A positive period goes into its own bucket and no other, by one, and is added to the sum and to the
/// count; what is shown beside them stays. Clearing empties all of these and nothing else, and says
/// when.
pub proof fn law_a_sample_goes_into_its_bucket(t: TelModel, ns: i64, bucket: int, other: int, now: i64)
    requires
        t.wf(),
        0 <= bucket < 512,
        0 <= other < 512,
        t.hist[bucket] < u32::MAX,
        t.count < u64::MAX,
        t.sum_ns + ns <= u64::MAX,
    ensures
        ({
            let after = t.with_sample(ns, bucket);
            let empty = t.cleared(now);
            &&& ns <= 0 ==> after == t
            &&& ns > 0 ==> {
                &&& after.hist.len() == 512
                &&& after.hist[bucket] == t.hist[bucket] + 1
                &&& other != bucket ==> after.hist[other] == t.hist[other]
                &&& after.count == t.count + 1
                &&& after.sum_ns == t.sum_ns + ns
                &&& after.min_ns == if ns < t.min_ns {
                    ns as int
                } else {
                    t.min_ns as int
                }
                &&& after.max_ns == if ns > t.max_ns {
                    ns as int
                } else {
                    t.max_ns as int
                }
                &&& after == (TelModel {
                    hist: after.hist,
                    count: after.count,
                    sum_ns: after.sum_ns,
                    min_ns: after.min_ns,
                    max_ns: after.max_ns,
                    ..t
                })
            }
            &&& empty.hist.len() == 512
            &&& empty.hist[other] == 0
            &&& empty.events == 0
            &&& empty.count == 0
            &&& empty.sum_ns == 0
            &&& empty.max_ns == 0
            &&& empty.min_ns == u64::MAX
            &&& empty.started == now
            &&& (empty.running, empty.spin_pct, empty.margin_us) == (
                t.running,
                t.spin_pct,
                t.margin_us,
            )
        }),
{
}

/// The samples up to a bucket are those in the buckets before it and its own; a target is reached in
/// the first bucket up to which there are as many.
pub proof fn law_a_target_is_reached_where_the_samples_are(hist: Seq<u32>, target: int, bucket: int)
    requires
        hist.len() == 512,
        0 <= bucket < 512,
        1 <= target <= samples(hist, 512),
    ensures
        samples(hist, 0) == 0,
        samples(hist, (bucket + 1) as nat) == samples(hist, bucket as nat) + hist[bucket],
        reaches(hist, target, bucket) <==> samples(hist, bucket as nat) < target <= samples(
            hist,
            (bucket + 1) as nat,
        ),
{
    if samples(hist, bucket as nat) < target {
        assert forall|j: int| 0 <= j < bucket implies #[trigger] samples(hist, (j + 1) as nat)
            < target by {
            lemma_samples_rise(hist, (j + 1) as nat, bucket as nat);
        }
    }
    if reaches(hist, target, bucket) && bucket > 0 {
        let before = bucket - 1;
        assert(samples(hist, (before + 1) as nat) < target);
    }
}

proof fn lemma_samples_rise(hist: Seq<u32>, m: nat, n: nat)
    requires
        m <= n,
    ensures
        samples(hist, m) <= samples(hist, n),
    decreases n,
{
    if m < n {
        lemma_samples_rise(hist, m, (n - 1) as nat);
    }
}

/// The thread never gets stuck: while idle it takes whatever it is told, and while it works
/// whichever way its job ends; only a core that has no place in a mask is in the way, and only of a
/// job that is to be pinned.
pub proof fn law_the_thread_takes_all_news(w: Worker, told: Option<Cmd>, next: Next)
    ensures
        w.post == Post::Idle ==> w.expects(News::Told(told)),
        w.post is Working ==> w.expects(News::Ended(next)),
        w.cores <= usize::BITS ==> w.room(News::Told(told)) && w.room(News::Ended(next)),
        told matches Some(Cmd::Start(_, opts)) ==> (!opts.pin_core ==> w.room(News::Told(told))),
        !(told matches Some(Cmd::Start(_, _))) ==> w.room(News::Told(told)),
        next matches Next::Run(_, opts) ==> (!opts.pin_core ==> w.room(News::Ended(next))),
        !(next is Run) ==> w.room(News::Ended(next)),
{
}

} // verus!
