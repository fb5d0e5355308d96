//! Level-gated diagnostics.
//!
//! A message carries its own level and is emitted when the configured level
//! is at least that. Structural failures are emitted at any level: a broken
//! status line needs a line that the user can find.

use vstd::prelude::*;
use vstd::string::StringExecFns;

use crate::diagnostics::{texts, Messages};
use crate::text::{
    debug_quoted, is_white_space, lowered, quoted, same_text, to_ascii_lowercase, trim, trimmed,
};
use crate::text_laws::trimming_takes_the_ends_alone;

verus! {

/// Severity. A message fires when its own level is at most the configured
/// one.
#[derive(Debug, Clone, Copy, PartialEq, Eq, PartialOrd, Ord, Structural)]
pub enum Level {
    Off,
    /// The default: real losses surface without asking for them.
    Warn,
    /// Every hidden segment says why.
    Debug,
}

/// The environment variable that holds the level.
pub const ENV_VAR: &'static str = "LINESMITH_LOG";

/// The level without any configuration.
pub const DEFAULT_LEVEL: Level = Level::Warn;

impl Level {
    /// The place of the level in `Off < Warn < Debug`.
    pub open spec fn rank(self) -> u8 {
        match self {
            Level::Off => 0,
            Level::Warn => 1,
            Level::Debug => 2,
        }
    }

    /// The level that `s` names, in any case and with any white space around
    /// it.
    pub open spec fn named(s: Seq<char>) -> Option<Level> {
        let word = lowered(trimmed(s));
        if word == "off"@ || word == "none"@ || word == "0"@ {
            Some(Level::Off)
        } else if word == "warn"@ || word == "warning"@ {
            Some(Level::Warn)
        } else if word == "debug"@ || word == "trace"@ || word == "all"@ {
            Some(Level::Debug)
        } else {
            None
        }
    }

    /// Read a level. `error` and `info` are no levels on purpose: to take
    /// either for `warn` would mislead.
    #[must_use]
    pub fn parse(s: &str) -> (r: Option<Level>)
        ensures
            r == Level::named(s@),
    {
        let word = to_ascii_lowercase(trim(s).as_str());
        let word = word.as_str();
        if same_text(word, "off") || same_text(word, "none") || same_text(word, "0") {
            Some(Level::Off)
        } else if same_text(word, "warn") || same_text(word, "warning") {
            Some(Level::Warn)
        } else if same_text(word, "debug") || same_text(word, "trace") || same_text(word, "all") {
            Some(Level::Debug)
        } else {
            None
        }
    }

    /// The byte of the level.
    pub fn to_u8(self) -> (r: u8)
        ensures
            r == self.rank(),
    {
        match self {
            Level::Off => 0,
            Level::Warn => 1,
            Level::Debug => 2,
        }
    }

    /// The word for the level in a message; messages have no level `Off`.
    pub open spec fn tag(self) -> Option<Seq<char>> {
        match self {
            Level::Off => None,
            Level::Warn => Some("warn"@),
            Level::Debug => Some("debug"@),
        }
    }
}

/// The level of the byte `n`. What is out of range is taken for the verbose
/// end, so that nothing is lost.
pub fn from_u8(n: u8) -> (r: Level)
    ensures
        r.rank() == if n <= 2 {
            n
        } else {
            2
        },
{
    match n {
        0 => Level::Off,
        1 => Level::Warn,
        _ => Level::Debug,
    }
}

/// What to do about the environment variable.
#[derive(Debug, PartialEq, Eq)]
pub enum InitDecision<'a> {
    /// It is not set: keep the level.
    Keep,
    /// It names this level.
    Adopt(Level),
    /// It names no level.
    Warn(&'a str),
}

/// What to do about the value `raw` of the environment variable.
pub fn decide_init<'a>(raw: Option<&'a str>) -> (r: InitDecision<'a>)
    ensures
        match raw {
            None => r == InitDecision::Keep,
            Some(s) => match Level::named(s@) {
                Some(l) => r == InitDecision::Adopt(l),
                None => r == InitDecision::Warn(s),
            },
        },
{
    match raw {
        None => InitDecision::Keep,
        Some(s) => match Level::parse(s) {
            Some(l) => InitDecision::Adopt(l),
            None => InitDecision::Warn(s),
        },
    }
}

/// Where diagnostics go.
pub trait LogSink: Send + Sync {
    /// What the sink has been given, line by line.
    spec fn log(&self) -> Seq<Seq<char>>;

    /// The line that the sink makes of a message under `tag`.
    spec fn line(&self, tag: Seq<char>, msg: Seq<char>) -> Seq<char>;

    /// Emit a message of that level. The caller has asked whether the level
    /// is enabled; `Off` is no level of a message and writes nothing.
    fn emit(&mut self, lvl: Level, msg: &str)
        ensures
            final(self).log() == match lvl.tag() {
                Some(tag) => old(self).log().push(old(self).line(tag, msg@)),
                None => old(self).log(),
            },
    ;

    /// Emit a structural failure.
    fn emit_error(&mut self, msg: &str)
        ensures
            final(self).log() == old(self).log().push(old(self).line("error"@, msg@)),
    ;
}

/// Lines for the process's standard error: `linesmith [<tag>]: <msg>`. The
/// host writes them out.
#[derive(Debug, PartialEq, Eq)]
pub struct StderrSink {
    pub lines: Messages,
}

/// Lines for an interactive consumer: `[<tag>] <msg>`, without a prefix that
/// the consumer's own surface makes redundant.
#[derive(Debug, PartialEq, Eq)]
pub struct CapturedSink {
    entries: Messages,
}

/// The line that a capture makes of a message.
pub open spec fn captured_line(tag: Seq<char>, msg: Seq<char>) -> Seq<char> {
    "["@ + tag + "] "@ + msg
}

fn tagged(start: &str, tag: &str, middle: &str, msg: &str) -> (r: String)
    ensures
        r@ == start@ + tag@ + middle@ + msg@,
{
    let mut out = start.to_owned();
    out.append(tag);
    out.append(middle);
    out.append(msg);
    out
}

impl Default for StderrSink {
    fn default() -> (r: StderrSink)
        ensures
            r.log() == Seq::<Seq<char>>::empty(),
    {
        StderrSink { lines: Messages::new() }
    }
}

impl LogSink for StderrSink {
    open spec fn log(&self) -> Seq<Seq<char>> {
        self.lines@
    }

    open spec fn line(&self, tag: Seq<char>, msg: Seq<char>) -> Seq<char> {
        "linesmith ["@ + tag + "]: "@ + msg
    }

    fn emit(&mut self, lvl: Level, msg: &str) {
        match lvl {
            Level::Off => {},
            Level::Warn => {
                self.lines.push(tagged("linesmith [", "warn", "]: ", msg));
            },
            Level::Debug => {
                self.lines.push(tagged("linesmith [", "debug", "]: ", msg));
            },
        }
    }

    fn emit_error(&mut self, msg: &str) {
        self.lines.push(tagged("linesmith [", "error", "]: ", msg));
    }
}

impl Default for CapturedSink {
    fn default() -> (r: CapturedSink)
        ensures
            r.log() == Seq::<Seq<char>>::empty(),
    {
        CapturedSink { entries: Messages::new() }
    }
}

impl CapturedSink {
    /// What has been captured.
    pub closed spec fn captured(&self) -> Seq<Seq<char>> {
        self.entries@
    }

    /// Take all that has been captured, and leave the sink empty.
    #[must_use]
    pub fn drain(&mut self) -> (r: Vec<String>)
        ensures
            texts(r@) == old(self).log(),
            final(self).log() == Seq::<Seq<char>>::empty(),
    {
        let mut taken = Messages::new();
        std::mem::swap(&mut taken, &mut self.entries);
        taken.lines
    }

    /// All that has been captured so far; the sink keeps it.
    #[must_use]
    pub fn snapshot(&self) -> (r: Vec<String>)
        ensures
            texts(r@) == self.log(),
    {
        let mut copied: Vec<String> = Vec::new();
        let mut i: usize = 0;
        while i < self.entries.lines.len()
            invariant
                i <= self.entries.lines@.len(),
                texts(copied@) == self.log().take(i as int),
            decreases self.entries.lines@.len() - i,
        {
            let line = self.entries.lines[i].as_str().to_owned();
            assert(texts(copied@.push(line)) =~= texts(copied@).push(line@));
            assert(self.log().take(i + 1) =~= self.log().take(i as int).push(line@));
            copied.push(line);
            i += 1;
        }
        assert(self.log().take(i as int) =~= self.log());
        copied
    }
}

impl LogSink for CapturedSink {
    open spec fn log(&self) -> Seq<Seq<char>> {
        self.captured()
    }

    open spec fn line(&self, tag: Seq<char>, msg: Seq<char>) -> Seq<char> {
        captured_line(tag, msg)
    }

    fn emit(&mut self, lvl: Level, msg: &str) {
        match lvl {
            Level::Off => {},
            Level::Warn => {
                self.entries.push(tagged("[", "warn", "] ", msg));
            },
            Level::Debug => {
                self.entries.push(tagged("[", "debug", "] ", msg));
            },
        }
    }

    fn emit_error(&mut self, msg: &str) {
        self.entries.push(tagged("[", "error", "] ", msg));
    }
}

/// A level, the sink that is active, and a capture that may stand in front of
/// both.
pub struct Logger<S> {
    level: Level,
    sink: S,
    capture: Option<CapturedSink>,
}

impl<S> Logger<S> {
    /// The configured level.
    pub closed spec fn configured(&self) -> Level {
        self.level
    }

    /// The active sink.
    pub closed spec fn active(&self) -> S {
        self.sink
    }

    /// What the capture in front holds, where there is one.
    pub closed spec fn captured(&self) -> Option<Seq<Seq<char>>> {
        match self.capture {
            Some(sink) => Some(sink.log()),
            None => None,
        }
    }

    /// A logger at the default level.
    pub fn new(sink: S) -> (r: Logger<S>)
        ensures
            r.configured() == DEFAULT_LEVEL,
            r.active() == sink,
            r.captured() is None,
    {
        Logger { level: DEFAULT_LEVEL, sink, capture: None }
    }

    /// The active sink.
    pub fn sink(&self) -> (r: &S)
        ensures
            *r == self.active(),
    {
        &self.sink
    }
}

/// Set the level.
pub fn set_level<S>(logger: &mut Logger<S>, l: Level)
    ensures
        final(logger).configured() == l,
        final(logger).active() == old(logger).active(),
        final(logger).captured() == old(logger).captured(),
{
    logger.level = l;
}

/// The level.
#[must_use]
pub fn level<S>(logger: &Logger<S>) -> (r: Level)
    ensures
        r == logger.configured(),
{
    logger.level
}

/// Is a message of level `at_least` emitted?
#[must_use]
pub fn is_enabled<S>(logger: &Logger<S>, at_least: Level) -> (r: bool)
    ensures
        r == (logger.configured().rank() >= at_least.rank()),
{
    logger.level.to_u8() >= at_least.to_u8()
}

/// The report on a value of the environment variable that names no level.
pub open spec fn unrecognized(bad: Seq<char>) -> Seq<char> {
    "linesmith: LINESMITH_LOG="@ + debug_quoted(bad) + " unrecognized; using default (Warn)"@
}

/// Apply the value `raw` of the environment variable. One that names no level
/// is reported and resets the level to the default.
pub fn apply<S>(logger: &mut Logger<S>, raw: Option<&str>, warn_sink: &mut Messages)
    ensures
        final(logger).active() == old(logger).active(),
        final(logger).captured() == old(logger).captured(),
        match raw {
            None => final(logger).configured() == old(logger).configured() && final(warn_sink)@
                == old(warn_sink)@,
            Some(s) => match Level::named(s@) {
                Some(l) => final(logger).configured() == l && final(warn_sink)@ == old(warn_sink)@,
                None => {
                    &&& final(logger).configured() == DEFAULT_LEVEL
                    &&& final(warn_sink)@ == old(warn_sink)@.push(unrecognized(s@))
                },
            },
        },
{
    match decide_init(raw) {
        InitDecision::Keep => {},
        InitDecision::Adopt(l) => {
            set_level(logger, l);
        },
        InitDecision::Warn(bad) => {
            let mut message = "linesmith: LINESMITH_LOG=".to_owned();
            message.append(quoted(bad).as_str());
            message.append(" unrecognized; using default (Warn)");
            warn_sink.push(message);
            set_level(logger, DEFAULT_LEVEL);
        },
    }
}

/// Emit `msg` at `lvl`. A capture in front takes it whatever the level; else
/// the active sink gets it, unless its own level is above the configured one.
pub fn emit<S: LogSink>(logger: &mut Logger<S>, lvl: Level, msg: &str)
    ensures
        final(logger).configured() == old(logger).configured(),
        match old(logger).captured() {
            Some(held) => {
                &&& final(logger).active() == old(logger).active()
                &&& final(logger).captured() == Some(
                    match lvl.tag() {
                        Some(tag) => held.push(captured_line(tag, msg@)),
                        None => held,
                    },
                )
            },
            None => {
                &&& final(logger).captured() is None
                &&& old(logger).configured().rank() < lvl.rank() ==> final(logger).active()
                    == old(logger).active()
                &&& old(logger).configured().rank() >= lvl.rank() ==> final(logger).active().log()
                    == match lvl.tag() {
                    Some(tag) => old(logger).active().log().push(
                        old(logger).active().line(tag, msg@),
                    ),
                    None => old(logger).active().log(),
                }
            },
        },
{
    let mut capture: Option<CapturedSink> = None;
    std::mem::swap(&mut capture, &mut logger.capture);
    match capture {
        Some(mut sink) => {
            sink.emit(lvl, msg);
            logger.capture = Some(sink);
        },
        None => {
            if is_enabled(logger, lvl) {
                logger.sink.emit(lvl, msg);
            }
        },
    }
}

/// Emit a structural failure, at any level.
pub fn emit_error<S: LogSink>(logger: &mut Logger<S>, msg: &str)
    ensures
        final(logger).configured() == old(logger).configured(),
        match old(logger).captured() {
            Some(held) => {
                &&& final(logger).active() == old(logger).active()
                &&& final(logger).captured() == Some(held.push(captured_line("error"@, msg@)))
            },
            None => {
                &&& final(logger).captured() is None
                &&& final(logger).active().log() == old(logger).active().log().push(
                    old(logger).active().line("error"@, msg@),
                )
            },
        },
{
    let mut capture: Option<CapturedSink> = None;
    std::mem::swap(&mut capture, &mut logger.capture);
    match capture {
        Some(mut sink) => {
            sink.emit_error(msg);
            logger.capture = Some(sink);
        },
        None => {
            logger.sink.emit_error(msg);
        },
    }
}

/// Make `new_sink` the active sink, and give the one before.
pub fn install_sink<S>(logger: &mut Logger<S>, new_sink: S) -> (r: S)
    ensures
        r == old(logger).active(),
        final(logger).active() == new_sink,
        final(logger).configured() == old(logger).configured(),
        final(logger).captured() == old(logger).captured(),
{
    let mut prior = new_sink;
    std::mem::swap(&mut prior, &mut logger.sink);
    prior
}

/// Holds the sink that was active before another was installed.
#[must_use]
pub struct SinkGuard<S> {
    prior: S,
}

impl<S> SinkGuard<S> {
    /// The sink that was active before.
    pub closed spec fn held(&self) -> S {
        self.prior
    }

    /// Install `new_sink` as the active sink, and hold the one before.
    pub fn install(logger: &mut Logger<S>, new_sink: S) -> (r: SinkGuard<S>)
        ensures
            r.held() == old(logger).active(),
            final(logger).active() == new_sink,
            final(logger).configured() == old(logger).configured(),
            final(logger).captured() == old(logger).captured(),
    {
        SinkGuard { prior: install_sink(logger, new_sink) }
    }

    /// Make the sink that was held the active one again, and give the one
    /// that was installed.
    pub fn restore(self, logger: &mut Logger<S>) -> (r: S)
        ensures
            final(logger).active() == self.held(),
            r == old(logger).active(),
            final(logger).configured() == old(logger).configured(),
            final(logger).captured() == old(logger).captured(),
    {
        install_sink(logger, self.prior)
    }
}

/// Holds the capture that stood in front before another did.
#[must_use]
pub struct CaptureGuard {
    prior: Option<CapturedSink>,
}

impl CaptureGuard {
    /// What the capture before holds, where there was one.
    pub closed spec fn held(&self) -> Option<Seq<Seq<char>>> {
        match self.prior {
            Some(sink) => Some(sink.log()),
            None => None,
        }
    }

    /// Put an empty capture in front.
    pub fn install<S>(logger: &mut Logger<S>) -> (r: CaptureGuard)
        ensures
            r.held() == old(logger).captured(),
            final(logger).captured() == Some(Seq::<Seq<char>>::empty()),
            final(logger).active() == old(logger).active(),
            final(logger).configured() == old(logger).configured(),
    {
        let mut prior: Option<CapturedSink> = Some(CapturedSink::default());
        std::mem::swap(&mut prior, &mut logger.capture);
        CaptureGuard { prior }
    }

    /// Put back the capture before, and give what was captured since.
    pub fn restore<S>(self, logger: &mut Logger<S>) -> (r: Vec<String>)
        ensures
            final(logger).captured() == self.held(),
            texts(r@) == match old(logger).captured() {
                Some(held) => held,
                None => Seq::<Seq<char>>::empty(),
            },
            final(logger).active() == old(logger).active(),
            final(logger).configured() == old(logger).configured(),
    {
        let mut capture = self.prior;
        std::mem::swap(&mut capture, &mut logger.capture);
        match capture {
            Some(mut sink) => sink.drain(),
            None => {
                let none: Vec<String> = Vec::new();
                assert(texts(none@) =~= Seq::<Seq<char>>::empty());
                none
            },
        }
    }
}

/// A level lets through all that a lower one does.
pub proof fn verbosity_is_monotone(a: Level, b: Level, message: Level)
    requires
        a.rank() <= b.rank(),
        a.rank() >= message.rank(),
    ensures
        b.rank() >= message.rank(),
{
}

/// A level can be had back from its byte.
pub proof fn bytes_tell_levels_apart(a: Level, b: Level)
    requires
        a.rank() == b.rank(),
    ensures
        a == b,
{
}

/// A level is named by one of its words, in any case and with any white space
/// around it, and by nothing else.
pub proof fn level_is_named_by_its_words(s: Seq<char>)
    ensures
        ({
            let spelt = |word: Seq<char>| lowered(trimmed(s)) == word;
            &&& Level::named(s) == Some(Level::Off) <==> spelt("off"@) || spelt("none"@) || spelt(
                "0"@,
            )
            &&& Level::named(s) == Some(Level::Warn) <==> spelt("warn"@) || spelt("warning"@)
            &&& Level::named(s) == Some(Level::Debug) <==> spelt("debug"@) || spelt("trace"@)
                || spelt("all"@)
        }),
{
    reveal_strlit("off");
    reveal_strlit("none");
    reveal_strlit("0");
    reveal_strlit("warn");
    reveal_strlit("warning");
    reveal_strlit("debug");
    reveal_strlit("trace");
    reveal_strlit("all");
    let word = lowered(trimmed(s));
    if word.len() > 0 {
        let c = word[0];
        assert(word == "off"@ ==> c == 'o');
        assert(word == "none"@ ==> c == 'n');
        assert(word == "0"@ ==> c == '0');
        assert(word == "warn"@ || word == "warning"@ ==> c == 'w');
        assert(word == "debug"@ ==> c == 'd');
        assert(word == "trace"@ ==> c == 't');
        assert(word == "all"@ ==> c == 'a');
    }
}

/// Two values that differ in case or in the white space around them alone name
/// the same level, or both none.
pub proof fn case_and_blanks_name_no_other_level(a: Seq<char>, b: Seq<char>)
    requires
        lowered(trimmed(a)) == lowered(trimmed(b)),
    ensures
        Level::named(a) == Level::named(b),
{
}

/// Whatever lets a warning through is not off, and whatever lets a message for
/// debugging through lets warnings through; only the most verbose level does.
/// The tag of a message names its level.
pub proof fn levels_ascend(l: Level)
    ensures
        l.rank() >= Level::Warn.rank() <==> l != Level::Off,
        l.rank() >= Level::Debug.rank() <==> l == Level::Debug,
        l.rank() >= Level::Off.rank(),
        l.tag() is None <==> l == Level::Off,
        l.tag() matches Some(tag) ==> Level::named(tag) == Some(l),
{
    reveal_strlit("warn");
    reveal_strlit("debug");
    match l.tag() {
        Some(tag) => {
            let at = trimming_takes_the_ends_alone(tag);
            let n = tag.len() as int;
            assert(tag == "warn"@ || tag == "debug"@);
            assert(at.0 == 0) by {
                if at.0 > 0 {
                    assert(is_white_space(tag[0]));
                }
            }
            assert(at.1 == n) by {
                if at.1 < n {
                    assert(is_white_space(tag[n - 1]));
                }
            }
            assert(tag.subrange(0, n) =~= tag);
            assert(lowered(tag) =~= tag);
            level_is_named_by_its_words(tag);
        },
        None => {},
    }
}

/// A line of either sink ends in its message, with the tag in brackets in
/// front of it; that for the standard error names the program first.
pub proof fn lines_carry_tag_and_message(
    stderr: StderrSink,
    capture: CapturedSink,
    tag: Seq<char>,
    msg: Seq<char>,
)
    ensures
        capture.line(tag, msg) == seq!['['] + tag + seq![']', ' '] + msg,
        stderr.line(tag, msg) == seq!['l', 'i', 'n', 'e', 's', 'm', 'i', 't', 'h', ' ', '[']
            + tag + seq![']', ':', ' '] + msg,
{
    reveal_strlit("[");
    reveal_strlit("] ");
    reveal_strlit("linesmith [");
    reveal_strlit("]: ");
    assert("["@ =~= seq!['[']);
    assert("] "@ =~= seq![']', ' ']);
    assert("linesmith ["@ =~= seq!['l', 'i', 'n', 'e', 's', 'm', 'i', 't', 'h', ' ', '[']);
    assert("]: "@ =~= seq![']', ':', ' ']);
}

/// A level is had back from its byte; a byte that is none's gives the most
/// verbose level, and a larger byte never a less verbose one.
pub proof fn level_is_had_back_from_its_byte(l: Level, bytes: (u8, u8), levels: (Level, Level))
    requires
        call_ensures(from_u8, (bytes.0,), levels.0),
        call_ensures(from_u8, (bytes.1,), levels.1),
    ensures
        call_ensures(Level::to_u8, (l,), bytes.0) ==> levels.0 == l,
        bytes.0 > 2 ==> levels.0 == Level::Debug,
        bytes.0 <= bytes.1 ==> levels.0.rank() <= levels.1.rank(),
{
}

/// What is done about the environment variable: nothing where it is not set,
/// its level is taken where it names one, and it is told as it was written
/// where it names none.
pub proof fn variable_is_taken_by_its_words<'a>(raw: Option<&'a str>, r: InitDecision<'a>, l: Option<
    Level,
>)
    requires
        call_ensures(decide_init, (raw,), r),
        raw matches Some(s) ==> call_ensures(Level::parse, (s,), l),
    ensures
        raw is None <==> r == InitDecision::Keep,
        raw matches Some(s) ==> (l matches Some(level) ==> r == InitDecision::Adopt(level)),
        raw matches Some(s) ==> (l is None ==> r == InitDecision::Warn(s)),
{
}

/// A message reaches one place at the most. A capture in front takes it at any
/// level, and the active sink stays as it is; else the active sink takes it
/// where its level is enabled. What has no level of a message is not written.
pub proof fn message_reaches_one_place<S: LogSink>(lvl: Level, msg: &str)
    ensures
        forall|logger: &mut Logger<S>| #[trigger]
            call_ensures(emit::<S>, (logger, lvl, msg), ()) ==> {
                let lines = (if lvl == Level::Off {
                    0
                } else {
                    1nat
                });
                let enabled = (*logger).configured().rank() >= lvl.rank();
                &&& final(logger).configured() == (*logger).configured()
                &&& (*logger).captured() matches Some(held) ==> {
                    &&& final(logger).active() == (*logger).active()
                    &&& final(logger).captured() is Some
                    &&& held.is_prefix_of(final(logger).captured()->0)
                    &&& final(logger).captured()->0.len() == held.len() + lines
                    &&& lvl != Level::Off ==> msg@.is_suffix_of(final(logger).captured()->0.last())
                }
                &&& (*logger).captured() is None ==> {
                    &&& final(logger).captured() is None
                    &&& !enabled ==> final(logger).active() == (*logger).active()
                    &&& enabled ==> final(logger).active().log().len() == (
                    *logger).active().log().len() + lines
                    &&& enabled ==> (*logger).active().log().is_prefix_of(
                        final(logger).active().log(),
                    )
                }
            },
{
    assert forall|logger: &mut Logger<S>| #[trigger]
        call_ensures(emit::<S>, (logger, lvl, msg), ()) implies ({
        let lines = (if lvl == Level::Off {
            0
        } else {
            1nat
        });
        let enabled = (*logger).configured().rank() >= lvl.rank();
        &&& final(logger).configured() == (*logger).configured()
        &&& (*logger).captured() matches Some(held) ==> {
            &&& final(logger).active() == (*logger).active()
            &&& final(logger).captured() is Some
            &&& held.is_prefix_of(final(logger).captured()->0)
            &&& final(logger).captured()->0.len() == held.len() + lines
            &&& lvl != Level::Off ==> msg@.is_suffix_of(final(logger).captured()->0.last())
        }
        &&& (*logger).captured() is None ==> {
            &&& final(logger).captured() is None
            &&& !enabled ==> final(logger).active() == (*logger).active()
            &&& enabled ==> final(logger).active().log().len() == (*logger).active().log().len()
                + lines
            &&& enabled ==> (*logger).active().log().is_prefix_of(final(logger).active().log())
        }
    }) by {
        match (*logger).captured() {
            Some(held) => {
                let now = final(logger).captured()->0;
                assert(now.take(held.len() as int) =~= held);
                if lvl != Level::Off {
                    let line = captured_line(lvl.tag()->0, msg@);
                    assert(now.last() == line);
                    assert(line.skip(line.len() - msg@.len()) =~= msg@);
                }
            },
            None => {
                let was = (*logger).active().log();
                let now = final(logger).active().log();
                if (*logger).configured().rank() >= lvl.rank() {
                    assert(now.take(was.len() as int) =~= was);
                }
            },
        }
    }
}

/// A structural failure is emitted at any level, one line for each.
pub proof fn failure_is_always_emitted<S: LogSink>(msg: &str)
    ensures
        forall|logger: &mut Logger<S>| #[trigger]
            call_ensures(emit_error::<S>, (logger, msg), ()) ==> {
                &&& final(logger).configured() == (*logger).configured()
                &&& (*logger).captured() matches Some(held) ==> {
                    &&& final(logger).active() == (*logger).active()
                    &&& final(logger).captured() is Some
                    &&& final(logger).captured()->0.len() == held.len() + 1
                }
                &&& (*logger).captured() is None ==> {
                    &&& final(logger).captured() is None
                    &&& final(logger).active().log().len() == (*logger).active().log().len() + 1
                }
            },
{
}

/// The environment variable sets the level and nothing else: not set, it
/// changes nothing; naming a level, it sets that; naming none, it sets the
/// default and is told of once.
pub proof fn variable_sets_the_level_alone<S>(raw: Option<&str>, named: Option<Level>)
    requires
        raw matches Some(s) ==> call_ensures(Level::parse, (s,), named),
    ensures
        forall|logger: &mut Logger<S>, told: &mut Messages| #[trigger]
            call_ensures(apply::<S>, (logger, raw, told), ()) ==> {
                &&& final(logger).active() == (*logger).active()
                &&& final(logger).captured() == (*logger).captured()
                &&& raw is None ==> final(logger).configured() == (*logger).configured()
                    && final(told)@ == (*told)@
                &&& raw is Some && named is Some ==> final(logger).configured() == named->0
                    && final(told)@ == (*told)@
                &&& raw is Some && named is None ==> {
                    &&& final(logger).configured() == DEFAULT_LEVEL
                    &&& final(told)@.len() == (*told)@.len() + 1
                    &&& final(told)@.drop_last() == (*told)@
                }
            },
{
    assert forall|logger: &mut Logger<S>, told: &mut Messages| #[trigger]
        call_ensures(apply::<S>, (logger, raw, told), ()) && raw is Some && named is None implies (
    final(told)@.drop_last() == (*told)@) by {
        assert(final(told)@.drop_last() =~= (*told)@);
    }
}

/// A guard puts back the sink that was active before another was installed,
/// and hands out the one that was.
pub proof fn guard_puts_the_sink_back<S>(new_sink: S, guard: SinkGuard<S>, back: S)
    ensures
        forall|a: &mut Logger<S>, b: &mut Logger<S>|
            #![trigger call_ensures(
                SinkGuard::<S>::install,
                (a, new_sink),
                guard,
            ), call_ensures(SinkGuard::<S>::restore, (guard, b), back)]
            call_ensures(SinkGuard::<S>::install, (a, new_sink), guard) && *b == *final(a)
                && call_ensures(SinkGuard::<S>::restore, (guard, b), back) ==> {
                &&& final(a).active() == new_sink
                &&& final(b).active() == (*a).active()
                &&& back == new_sink
                &&& final(b).configured() == (*a).configured()
                &&& final(b).captured() == (*a).captured()
            },
{
}

} // verus!
