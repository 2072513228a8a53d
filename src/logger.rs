use vstd::prelude::*;
use crate::context::{
    ContextGuard, ContextStore, Field, pairs_match, pairs_of, pairs_set, pairs_without, released,
};
use crate::diagram::{ChartConfig, NANOS_PER_MILLI, RenderError, diagram_text};
use crate::level::{InvalidLevel, LogLevel, level_named, lower_of};
use crate::text::{decimal, push_decimal};
use crate::tracker::{ComponentGuard, ComponentNode, ComponentTracker, closed_at, releasable, top_below, children_below};

verus! {

/// One log record, ready for a sink. Times are nanoseconds.
#[derive(Clone, Debug)]
pub struct LogRecord {
    pub level: LogLevel,
    pub logger: String,
    pub message: String,
    /// Structured fields, in the order given.
    pub fields: Vec<Field>,
    /// The context at the time the record was made.
    pub context: Vec<Field>,
    pub timestamp: u64,
}

/// What a logger is built with.
#[derive(Clone, Copy, Debug, PartialEq, Eq, Structural)]
pub struct Config {
    pub min_level: LogLevel,
    pub component_tracking: bool,
}

impl Config {
    /// Records at `Info` and above; components tracked.
    pub fn new() -> (r: Config)
        ensures
            r.min_level == LogLevel::Info,
            r.component_tracking,
    {
        Config { min_level: LogLevel::Info, component_tracking: true }
    }

    pub fn with_min_level(self, level: LogLevel) -> (r: Config)
        ensures
            r == (Config { min_level: level, ..self }),
    {
        Config { min_level: level, ..self }
    }

    pub fn with_component_tracking(self, on: bool) -> (r: Config)
        ensures
            r == (Config { component_tracking: on, ..self }),
    {
        Config { component_tracking: on, ..self }
    }
}

/// A running timer for a named operation. Times are nanoseconds.
#[derive(Clone, Debug)]
pub struct ProfileGuard {
    pub operation: String,
    pub start: u64,
}

/// Nanoseconds from `start` to `now`; zero if `now` is earlier.
pub open spec fn elapsed_since(start: u64, now: u64) -> nat {
    if now >= start {
        (now - start) as nat
    } else {
        0
    }
}

impl ProfileGuard {
    /// The time since the guard was made, without stopping it.
    pub fn elapsed(&self, now: u64) -> (r: u64)
        ensures
            r as nat == elapsed_since(self.start, now),
    {
        if now >= self.start {
            now - self.start
        } else {
            0
        }
    }
}

/// Two readings of a running timer, the later one taken no earlier, never
/// go backwards.
pub proof fn lemma_elapsed_monotone(g: ProfileGuard, t1: u64, t2: u64)
    requires
        t1 <= t2,
    ensures
        elapsed_since(g.start, t1) <= elapsed_since(g.start, t2),
{
}

/// A timer that starts no earlier and stops no later than another reports no
/// more time, in nanoseconds and in whole milliseconds: an outer span contains
/// an inner one.
pub proof fn lemma_nested_timers(outer: ProfileGuard, inner: ProfileGuard, t_inner: u64, t_outer: u64)
    requires
        outer.start <= inner.start,
        t_inner <= t_outer,
    ensures
        elapsed_since(inner.start, t_inner) <= elapsed_since(outer.start, t_outer),
        elapsed_since(inner.start, t_inner) / (NANOS_PER_MILLI as nat) <= elapsed_since(
            outer.start,
            t_outer,
        ) / (NANOS_PER_MILLI as nat),
{
    vstd::arithmetic::div_mod::lemma_div_is_ordered(
        elapsed_since(inner.start, t_inner) as int,
        elapsed_since(outer.start, t_outer) as int,
        NANOS_PER_MILLI as int,
    );
}

/// The logger: a name, a minimum level, the context store and the component
/// tracker.
pub struct Logger {
    name: String,
    min_level: LogLevel,
    tracking: bool,
    context: ContextStore,
    tracker: ComponentTracker,
}

/// The message of the record that a finished timer leaves.
pub open spec fn profile_message() -> Seq<char> {
    "operation completed"@
}

impl Logger {
    pub closed spec fn name_view(&self) -> Seq<char> {
        self.name@
    }

    pub closed spec fn min_level_view(&self) -> LogLevel {
        self.min_level
    }

    pub closed spec fn tracking_view(&self) -> bool {
        self.tracking
    }

    pub closed spec fn context_view(&self) -> Map<Seq<char>, Seq<char>> {
        self.context@
    }

    /// The context entries, in the order in which their keys were first added.
    pub closed spec fn context_pairs(&self) -> Seq<(Seq<char>, Seq<char>)> {
        self.context.pairs()
    }

    pub closed spec fn tracker_view(&self) -> ComponentTracker {
        self.tracker
    }

    pub closed spec fn store_ok(&self) -> bool {
        self.context.wf()
    }

    /// The tracker is well formed, and the context entries that records carry
    /// are exactly the context map's entries, each key once.
    pub open spec fn wf(&self) -> bool {
        &&& self.store_ok()
        &&& self.tracker_view().wf()
        &&& pairs_match(self.context_pairs(), self.context_view())
    }

    /// A logger with the default configuration.
    pub fn new(name: &str) -> (r: Logger)
        ensures
            r.wf(),
            r.name_view() == name@,
            r.min_level_view() == LogLevel::Info,
            r.tracking_view(),
            r.context_view() == Map::<Seq<char>, Seq<char>>::empty(),
            r.context_pairs() == Seq::<(Seq<char>, Seq<char>)>::empty(),
            r.tracker_view().nodes().len() == 0,
    {
        Logger::with_config(name, &Config::new())
    }

    pub fn with_config(name: &str, config: &Config) -> (r: Logger)
        ensures
            r.wf(),
            r.name_view() == name@,
            r.min_level_view() == config.min_level,
            r.tracking_view() == config.component_tracking,
            r.context_view() == Map::<Seq<char>, Seq<char>>::empty(),
            r.context_pairs() == Seq::<(Seq<char>, Seq<char>)>::empty(),
            r.tracker_view().nodes().len() == 0,
    {
        let r = Logger {
            name: name.to_owned(),
            min_level: config.min_level,
            tracking: config.component_tracking,
            context: ContextStore::new(),
            tracker: ComponentTracker::new(),
        };
        proof {
            r.context.lemma_pairs_match();
        }
        r
    }

    pub fn name(&self) -> (r: &String)
        ensures
            r@ == self.name_view(),
    {
        &self.name
    }

    /// `TelelogLogger(<name>)`.
    pub fn describe(&self) -> (r: String)
        ensures
            r@ == "TelelogLogger("@ + self.name_view() + ")"@,
    {
        let mut s = String::from_str("TelelogLogger(");
        s.append(self.name.as_str());
        s.append(")");
        s
    }

    pub fn min_level(&self) -> (r: LogLevel)
        ensures
            r == self.min_level_view(),
    {
        self.min_level
    }

    /// Whether a record at `level` would be made.
    pub fn enabled(&self, level: LogLevel) -> (r: bool)
        ensures
            r == (level.rank() >= self.min_level_view().rank()),
    {
        level.at_least(&self.min_level)
    }

    /// The record for a message at `level` with `fields`, or `None` when the
    /// level is below the minimum; in that case nothing is copied, the
    /// context included.
    pub fn log(&self, level: LogLevel, message: &str, fields: &Vec<Field>, now: u64) -> (r: Option<
        LogRecord,
    >)
        requires
            self.wf(),
        ensures
            r is Some <==> level.rank() >= self.min_level_view().rank(),
            r matches Some(rec) ==> {
                &&& rec.level == level
                &&& rec.logger@ == self.name_view()
                &&& rec.message@ == message@
                &&& pairs_of(rec.fields@) == pairs_of(fields@)
                &&& pairs_of(rec.context@) == self.context_pairs()
                &&& rec.timestamp == now
            },
    {
        if !level.at_least(&self.min_level) {
            return None;
        }
        let mut copied: Vec<Field> = Vec::new();
        let mut i: usize = 0;
        while i < fields.len()
            invariant
                i <= fields@.len(),
                copied@.len() == i,
                forall|j: int| 0 <= j < i ==> #[trigger] copied@[j].pair() == fields@[j].pair(),
            decreases fields@.len() - i,
        {
            copied.push(fields[i].duplicate());
            i = i + 1;
        }
        assert(pairs_of(copied@) =~= pairs_of(fields@));
        Some(
            LogRecord {
                level,
                logger: self.name.clone(),
                message: message.to_owned(),
                fields: copied,
                context: self.context.snapshot(),
                timestamp: now,
            },
        )
    }

    pub fn debug(&self, message: &str, now: u64) -> (r: Option<LogRecord>)
        requires
            self.wf(),
        ensures
            r is Some <==> LogLevel::Debug.rank() >= self.min_level_view().rank(),
            r matches Some(rec) ==> rec.level == LogLevel::Debug && rec.logger@ == self.name_view()
                && rec.message@ == message@
                && rec.fields@.len() == 0 && pairs_of(rec.context@) == self.context_pairs()
                && rec.timestamp == now,
    {
        let none: Vec<Field> = Vec::new();
        let r = self.log(LogLevel::Debug, message, &none, now);
        assert(pairs_of(none@).len() == 0);
        r
    }

    pub fn info(&self, message: &str, now: u64) -> (r: Option<LogRecord>)
        requires
            self.wf(),
        ensures
            r is Some <==> LogLevel::Info.rank() >= self.min_level_view().rank(),
            r matches Some(rec) ==> rec.level == LogLevel::Info && rec.logger@ == self.name_view()
                && rec.message@ == message@
                && rec.fields@.len() == 0 && pairs_of(rec.context@) == self.context_pairs()
                && rec.timestamp == now,
    {
        let none: Vec<Field> = Vec::new();
        let r = self.log(LogLevel::Info, message, &none, now);
        assert(pairs_of(none@).len() == 0);
        r
    }

    pub fn warning(&self, message: &str, now: u64) -> (r: Option<LogRecord>)
        requires
            self.wf(),
        ensures
            r is Some <==> LogLevel::Warning.rank() >= self.min_level_view().rank(),
            r matches Some(rec) ==> rec.level == LogLevel::Warning && rec.logger@ == self.name_view()
                && rec.message@ == message@
                && rec.fields@.len() == 0 && pairs_of(rec.context@) == self.context_pairs()
                && rec.timestamp == now,
    {
        let none: Vec<Field> = Vec::new();
        let r = self.log(LogLevel::Warning, message, &none, now);
        assert(pairs_of(none@).len() == 0);
        r
    }

    pub fn error(&self, message: &str, now: u64) -> (r: Option<LogRecord>)
        requires
            self.wf(),
        ensures
            r is Some <==> LogLevel::Error.rank() >= self.min_level_view().rank(),
            r matches Some(rec) ==> rec.level == LogLevel::Error && rec.logger@ == self.name_view()
                && rec.message@ == message@
                && rec.fields@.len() == 0 && pairs_of(rec.context@) == self.context_pairs()
                && rec.timestamp == now,
    {
        let none: Vec<Field> = Vec::new();
        let r = self.log(LogLevel::Error, message, &none, now);
        assert(pairs_of(none@).len() == 0);
        r
    }

    pub fn critical(&self, message: &str, now: u64) -> (r: Option<LogRecord>)
        requires
            self.wf(),
        ensures
            r is Some <==> LogLevel::Critical.rank() >= self.min_level_view().rank(),
            r matches Some(rec) ==> rec.level == LogLevel::Critical && rec.logger@ == self.name_view()
                && rec.message@ == message@
                && rec.fields@.len() == 0 && pairs_of(rec.context@) == self.context_pairs()
                && rec.timestamp == now,
    {
        let none: Vec<Field> = Vec::new();
        let r = self.log(LogLevel::Critical, message, &none, now);
        assert(pairs_of(none@).len() == 0);
        r
    }

    /// Logs at the level named by `level` in any case (`warn` and `crit`
    /// accepted); an unknown name is an error and logs nothing.
    pub fn log_with(&self, level: &str, message: &str, data: &Vec<Field>, now: u64) -> (r: Result<
        Option<LogRecord>,
        InvalidLevel,
    >)
        requires
            self.wf(),
        ensures
            match r {
                Ok(o) => {
                    let l = level_named(lower_of(level@)).unwrap();
                    &&& level_named(lower_of(level@)) is Some
                    &&& (o is Some <==> l.rank() >= self.min_level_view().rank())
                    &&& o matches Some(rec) ==> {
                        &&& rec.level == l
                        &&& rec.message@ == message@
                        &&& pairs_of(rec.fields@) == pairs_of(data@)
                        &&& pairs_of(rec.context@) == self.context_pairs()
                        &&& rec.timestamp == now
                    }
                },
                Err(e) => level_named(lower_of(level@)) is None && e.given@ == level@,
            },
    {
        match LogLevel::parse(level) {
            Ok(l) => Ok(self.log(l, message, data, now)),
            Err(e) => Err(e),
        }
    }

    pub fn add_context(&mut self, key: &str, value: &str)
        requires
            old(self).wf(),
        ensures
            final(self).wf(),
            final(self).context_view() == old(self).context_view().insert(key@, value@),
            final(self).unchanged_but_context(*old(self)),
            final(self).context_pairs() == pairs_set(old(self).context_pairs(), key@, value@),
    {
        self.context.add(key, value);
        proof {
            self.context.lemma_pairs_match();
        }
    }

    pub fn remove_context(&mut self, key: &str)
        requires
            old(self).wf(),
        ensures
            final(self).wf(),
            final(self).context_view() == old(self).context_view().remove(key@),
            final(self).unchanged_but_context(*old(self)),
            final(self).context_pairs() == pairs_without(old(self).context_pairs(), key@),
    {
        self.context.remove(key);
        proof {
            self.context.lemma_pairs_match();
        }
    }

    pub fn clear_context(&mut self)
        requires
            old(self).wf(),
        ensures
            final(self).wf(),
            final(self).context_view() == Map::<Seq<char>, Seq<char>>::empty(),
            final(self).unchanged_but_context(*old(self)),
            final(self).context_pairs() == Seq::<(Seq<char>, Seq<char>)>::empty(),
    {
        self.context.clear();
        proof {
            self.context.lemma_pairs_match();
        }
    }

    /// Sets `key` to `value` for the scope of the returned guard.
    pub fn with_context(&mut self, key: &str, value: &str) -> (g: ContextGuard)
        requires
            old(self).wf(),
        ensures
            final(self).wf(),
            final(self).context_view() == old(self).context_view().insert(key@, value@),
            final(self).unchanged_but_context(*old(self)),
            final(self).context_pairs() == pairs_set(old(self).context_pairs(), key@, value@),
            g.key@ == key@,
            g.value@ == value@,
    {
        let g = self.context.with(key, value);
        proof {
            self.context.lemma_pairs_match();
        }
        g
    }

    /// Ends a context guard's scope; its key goes only if it still holds the
    /// guard's value.
    pub fn release_context(&mut self, guard: ContextGuard)
        requires
            old(self).wf(),
        ensures
            final(self).wf(),
            final(self).context_view() == released(
                old(self).context_view(),
                guard.key@,
                guard.value@,
            ),
            final(self).unchanged_but_context(*old(self)),
            final(self).context_pairs() == if old(self).context_view().contains_key(guard.key@)
                && old(self).context_view()[guard.key@] == guard.value@ {
                pairs_without(old(self).context_pairs(), guard.key@)
            } else {
                old(self).context_pairs()
            },
    {
        self.context.release(guard);
        proof {
            self.context.lemma_pairs_match();
        }
    }

    pub open spec fn unchanged_but_context(&self, o: Logger) -> bool {
        &&& self.name_view() == o.name_view()
        &&& self.min_level_view() == o.min_level_view()
        &&& self.tracking_view() == o.tracking_view()
        &&& self.tracker_view() == o.tracker_view()
    }

    /// Starts a timer for `operation` at `now`.
    pub fn profile(&self, operation: &str, now: u64) -> (g: ProfileGuard)
        ensures
            g.operation@ == operation@,
            g.start == now,
    {
        ProfileGuard { operation: operation.to_owned(), start: now }
    }

    /// Stops a timer at `now`: an `Info` record with the operation's name and
    /// its whole milliseconds, unless `Info` is filtered out.
    pub fn finish_profile(&self, guard: ProfileGuard, now: u64) -> (r: Option<LogRecord>)
        requires
            self.wf(),
        ensures
            r is Some <==> LogLevel::Info.rank() >= self.min_level_view().rank(),
            r matches Some(rec) ==> {
                &&& rec.level == LogLevel::Info
                &&& rec.logger@ == self.name_view()
                &&& rec.message@ == profile_message()
                &&& pairs_of(rec.fields@) == seq![
                    ("operation"@, guard.operation@),
                    ("elapsed_ms"@, decimal(elapsed_since(guard.start, now) / (NANOS_PER_MILLI as nat))),
                ]
                &&& pairs_of(rec.context@) == self.context_pairs()
                &&& rec.timestamp == now
            },
    {
        if !self.enabled(LogLevel::Info) {
            return None;
        }
        let ms = guard.elapsed(now) / NANOS_PER_MILLI;
        let mut ms_text = String::new();
        push_decimal(&mut ms_text, ms);
        let mut fields: Vec<Field> = Vec::new();
        fields.push(Field { key: String::from_str("operation"), value: guard.operation });
        fields.push(Field { key: String::from_str("elapsed_ms"), value: ms_text });
        let r = self.log(LogLevel::Info, "operation completed", &fields, now);
        assert(pairs_of(fields@) =~= seq![
            ("operation"@, guard.operation@),
            ("elapsed_ms"@, decimal(elapsed_since(guard.start, now) / (NANOS_PER_MILLI as nat))),
        ]);
        r
    }

    /// Opens a component on call chain `chain` at `now`; with tracking off the
    /// guard is empty and nothing is recorded.
    pub fn track_component(&mut self, name: &str, chain: u64, now: u64) -> (g: ComponentGuard)
        requires
            old(self).wf(),
            old(self).tracker_view().nodes().len() < usize::MAX,
        ensures
            final(self).wf(),
            final(self).unchanged_but_tracker(*old(self)),
            !old(self).tracking_view() ==> g.id is None && final(self).tracker_view() == old(
                self,
            ).tracker_view(),
            old(self).tracking_view() ==> ({
                let old_nodes = old(self).tracker_view().nodes();
                let n = final(self).tracker_view().nodes().last();
                let t = if now < old(self).tracker_view().clock() {
                    old(self).tracker_view().clock()
                } else {
                    now
                };
                &&& final(self).tracker_view().nodes().drop_last() == old_nodes
                &&& final(self).tracker_view().nodes().len() == old_nodes.len() + 1
                &&& n.id == old_nodes.len()
                &&& n.name@ == name@
                &&& n.parent == top_below(old_nodes, chain, old_nodes.len() as int)
                &&& n.start == t
                &&& n.end is None
                &&& n.chain == chain
                &&& n.seq == children_below(old_nodes, n.parent, old_nodes.len() as int)
                &&& final(self).tracker_view().clock() == t
                &&& g.id == Some(n.id)
            }),
    {
        if !self.tracking {
            return ComponentGuard { id: None };
        }
        self.tracker.track(name, chain, now)
    }

    /// Closes a component guard's node at `now` when it is the top of its
    /// chain's stack; otherwise nothing changes and the result is `false`.
    pub fn release_component(&mut self, guard: &ComponentGuard, now: u64) -> (r: bool)
        requires
            old(self).wf(),
        ensures
            final(self).wf(),
            final(self).unchanged_but_tracker(*old(self)),
            r == releasable(old(self).tracker_view().nodes(), guard.id),
            r ==> ({
                let i = guard.id.unwrap() as int;
                let old_nodes = old(self).tracker_view().nodes();
                let t = if now < old(self).tracker_view().clock() {
                    old(self).tracker_view().clock()
                } else {
                    now
                };
                &&& final(self).tracker_view().nodes() == old_nodes.update(
                    i,
                    closed_at(old_nodes[i], t),
                )
                &&& final(self).tracker_view().clock() == t
            }),
            !r ==> final(self).tracker_view().nodes() == old(self).tracker_view().nodes()
                && final(self).tracker_view().clock() == old(self).tracker_view().clock(),
    {
        self.tracker.release(guard, now)
    }

    pub open spec fn unchanged_but_tracker(&self, o: Logger) -> bool {
        &&& self.name_view() == o.name_view()
        &&& self.min_level_view() == o.min_level_view()
        &&& self.tracking_view() == o.tracking_view()
        &&& self.context_view() == o.context_view()
        &&& self.context_pairs() == o.context_pairs()
    }

    /// Every component so far, in creation order.
    pub fn get_components(&self) -> (r: &Vec<ComponentNode>)
        ensures
            r@ == self.tracker_view().nodes(),
    {
        self.tracker.components()
    }

    pub fn tracker(&self) -> (r: &ComponentTracker)
        ensures
            *r == self.tracker_view(),
    {
        &self.tracker
    }

    /// The diagram of the components tracked so far.
    pub fn generate_diagram(&self, cfg: &ChartConfig) -> (r: Result<String, RenderError>)
        requires
            self.wf(),
        ensures
            r is Ok,
            r.unwrap()@ == diagram_text(self.tracker_view().nodes(), *cfg),
    {
        self.tracker.diagram(cfg)
    }
}

/// A timer that can be stopped once, as a scope's entry and exit.
#[derive(Clone, Debug)]
pub struct ProfileContext {
    pub guard: Option<ProfileGuard>,
}

impl ProfileContext {
    pub fn new(logger: &Logger, operation: &str, now: u64) -> (r: ProfileContext)
        ensures
            r.guard matches Some(g) && g.operation@ == operation@ && g.start == now,
    {
        ProfileContext { guard: Some(logger.profile(operation, now)) }
    }

    /// Entering the scope changes nothing.
    pub fn enter(&mut self)
        ensures
            final(self).guard == old(self).guard,
    {
    }

    /// Leaving the scope stops the timer the first time, giving its record;
    /// later exits give nothing.
    pub fn exit(&mut self, logger: &Logger, now: u64) -> (r: Option<LogRecord>)
        requires
            logger.wf(),
        ensures
            final(self).guard is None,
            old(self).guard is None ==> r is None,
            old(self).guard is Some ==> (r is Some <==> LogLevel::Info.rank()
                >= logger.min_level_view().rank()),
            old(self).guard matches Some(g) ==> (r matches Some(rec) ==> {
                &&& rec.level == LogLevel::Info
                &&& rec.logger@ == logger.name_view()
                &&& rec.message@ == profile_message()
                &&& pairs_of(rec.fields@) == seq![
                    ("operation"@, g.operation@),
                    ("elapsed_ms"@, decimal(elapsed_since(g.start, now) / (NANOS_PER_MILLI as nat))),
                ]
                &&& pairs_of(rec.context@) == logger.context_pairs()
                &&& rec.timestamp == now
            }),
    {
        match self.guard.take() {
            Some(g) => logger.finish_profile(g, now),
            None => None,
        }
    }
}

} // verus!
