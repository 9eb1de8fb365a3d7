use vstd::prelude::*;

verus! {

/// How many messages the in-memory log keeps.
pub const LOG_CAPACITY: usize = 100;

/// A sink for log lines.
pub trait Logger {
    fn log(&mut self, message: String);
}

/// The message list after logging `message`: appended, and the oldest one
/// dropped once more than the capacity are held.
pub open spec fn spec_log(messages: Seq<Seq<char>>, message: Seq<char>) -> Seq<Seq<char>> {
    let pushed = messages.push(message);
    if pushed.len() > LOG_CAPACITY { pushed.drop_first() } else { pushed }
}

/// The message list after logging every message of `messages`, in order, onto `start`.
pub open spec fn log_all(start: Seq<Seq<char>>, messages: Seq<Seq<char>>) -> Seq<Seq<char>>
    decreases messages.len(),
{
    if messages.len() == 0 { start } else { spec_log(log_all(start, messages.drop_last()), messages.last()) }
}

/// Collects log lines in memory for the dashboard's log panel, keeping the most recent ones.
pub struct CollectingLogger {
    messages: Vec<String>,
}

impl CollectingLogger {
    /// The kept messages, oldest first.
    pub closed spec fn view(&self) -> Seq<Seq<char>> {
        self.messages@.map_values(|m: String| m@)
    }

    /// An empty log.
    pub fn new() -> (logger: Self)
        ensures
            logger.view() == Seq::<Seq<char>>::empty(),
    {
        let logger = CollectingLogger { messages: Vec::new() };
        assert(logger.view() =~= Seq::<Seq<char>>::empty());
        logger
    }

    /// A copy of the kept messages, oldest first.
    pub fn get_messages(&self) -> (messages: Vec<String>)
        ensures
            messages@.map_values(|m: String| m@) == self.view(),
    {
        let mut out: Vec<String> = Vec::new();
        let mut i: usize = 0;
        while i < self.messages.len()
            invariant
                0 <= i <= self.messages@.len(),
                out@.len() == i,
                forall|j: int| 0 <= j < i ==> out@[j]@ == self.messages@[j]@,
            decreases self.messages@.len() - i,
        {
            out.push(self.messages[i].clone());
            i = i + 1;
        }
        assert(out@.map_values(|m: String| m@) =~= self.view());
        out
    }

    /// Forgets every kept message.
    pub fn clear(&mut self)
        ensures
            final(self).view() == Seq::<Seq<char>>::empty(),
    {
        self.messages.clear();
        assert(self.view() =~= Seq::<Seq<char>>::empty());
    }
}

impl Logger for CollectingLogger {
    /// Keeps `message`, dropping the oldest one when the log is full.
    fn log(&mut self, message: String)
        ensures
            final(self).view() == spec_log(old(self).view(), message@),
    {
        let ghost m = message@;
        self.messages.push(message);
        if self.messages.len() > LOG_CAPACITY {
            self.messages.remove(0);
        }
        proof {
            let pushed = old(self).view().push(m);
            if pushed.len() > LOG_CAPACITY {
                assert(self.view() =~= pushed.drop_first());
            } else {
                assert(self.view() =~= pushed);
            }
        }
    }
}

/// The log keeps at most its capacity of messages, and exactly the most
/// recent ones: after logging any messages onto an empty log, it holds the
/// last `min(n, 100)` of them, in order.
pub proof fn law_log_keeps_most_recent(messages: Seq<Seq<char>>)
    ensures
        log_all(Seq::empty(), messages).len() <= LOG_CAPACITY,
        log_all(Seq::empty(), messages) == messages.subrange(
            if messages.len() > LOG_CAPACITY { messages.len() - LOG_CAPACITY } else { 0 },
            messages.len() as int,
        ),
    decreases messages.len(),
{
    if messages.len() > 0 {
        let init = messages.drop_last();
        law_log_keeps_most_recent(init);
        let before = log_all(Seq::empty(), init);
        let lo = if init.len() > LOG_CAPACITY { init.len() - LOG_CAPACITY } else { 0 };
        assert(before == init.subrange(lo, init.len() as int));
        let pushed = before.push(messages.last());
        assert(pushed =~= messages.subrange(lo, messages.len() as int));
        if pushed.len() > LOG_CAPACITY {
            assert(pushed.drop_first() =~= messages.subrange(lo + 1, messages.len() as int));
        }
    } else {
        assert(messages.subrange(0, 0) =~= Seq::<Seq<char>>::empty());
    }
}

/// The line a debug message becomes when debug output is enabled, or nothing when it is off.
pub open spec fn spec_debug(enabled: bool, message: Seq<char>) -> Option<Seq<char>> {
    if enabled { Some("DEBUG: "@ + message) } else { None }
}

/// Formats a debug message: only when debug mode is enabled, prefixed with `DEBUG: `.
pub fn debug(enabled: bool, message: String) -> (line: Option<String>)
    ensures
        match line {
            Some(l) => spec_debug(enabled, message@) == Some(l@),
            None => spec_debug(enabled, message@) is None,
        },
{
    broadcast use vstd::string::group_string_axioms;
    if enabled {
        let mut line = "DEBUG: ".to_string();
        line.append(message.as_str());
        Some(line)
    } else {
        None
    }
}

} // verus!
