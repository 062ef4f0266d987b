//! The log sink's state machine: log levels, headline and status stacks,
//! and the error counter.
//!
//! Formatting is pure and verified here; actually writing the formatted
//! lines to a terminal is left to the caller outside the library.

use vstd::prelude::*;
use crate::strutil::split_spec;

verus! {

#[derive(Clone, Copy, Debug, PartialEq, Eq, Structural)]
pub enum LogLevel {
    Off,
    Error,
    Warn,
    Info,
    Debug,
    Trace,
}

pub open spec fn level_rank_spec(l: LogLevel) -> int {
    match l {
        LogLevel::Off => 0,
        LogLevel::Error => 1,
        LogLevel::Warn => 2,
        LogLevel::Info => 3,
        LogLevel::Debug => 4,
        LogLevel::Trace => 5,
    }
}

impl LogLevel {
    pub fn rank(&self) -> (r: u8)
        ensures
            r as int == level_rank_spec(*self),
    {
        match self {
            LogLevel::Off => 0,
            LogLevel::Error => 1,
            LogLevel::Warn => 2,
            LogLevel::Info => 3,
            LogLevel::Debug => 4,
            LogLevel::Trace => 5,
        }
    }
}

impl Default for LogLevel {
    fn default() -> (r: Self)
        ensures
            r == LogLevel::Warn,
    {
        LogLevel::Warn
    }
}

/// A receipt for a pushed headline frame.
#[derive(Clone, Debug)]
pub struct Headline {
    pub message: String,
}

/// One message formatted for the sink: each line of the message prefixed
/// with the level tag and a space.
pub open spec fn formatted_lines_spec(prefix: Seq<char>, message: Seq<char>) -> Seq<Seq<char>> {
    split_spec(message, '\n').map_values(|l: Seq<char>| prefix + seq![' '] + l)
}

#[derive(Debug)]
pub struct Printer {
    log_level: LogLevel,
    exit_on_error: bool,
    headlines: Vec<String>,
    status_stack: Vec<String>,
    error_count: u64,
}

impl Clone for Printer {
    fn clone(&self) -> (r: Self)
        ensures
            r.level() == self.level(),
            r.exits_on_error() == self.exits_on_error(),
            r.errors() == self.errors(),
            r.headlines_view() == self.headlines_view(),
            r.statuses_view() == self.statuses_view(),
    {
        let r = Printer {
            log_level: self.log_level,
            exit_on_error: self.exit_on_error,
            headlines: self.headlines.clone(),
            status_stack: self.status_stack.clone(),
            error_count: self.error_count,
        };
        proof {
            assert(r.headlines@ =~= self.headlines@);
            assert(r.status_stack@ =~= self.status_stack@);
        }
        r
    }
}

impl Printer {
    pub closed spec fn level(&self) -> LogLevel {
        self.log_level
    }

    pub closed spec fn errors(&self) -> u64 {
        self.error_count
    }

    pub closed spec fn headlines_view(&self) -> Seq<Seq<char>> {
        self.headlines@.map_values(|h: String| h@)
    }

    pub closed spec fn statuses_view(&self) -> Seq<Seq<char>> {
        self.status_stack@.map_values(|s: String| s@)
    }

    pub closed spec fn exits_on_error(&self) -> bool {
        self.exit_on_error
    }

    pub fn new(log_level: &LogLevel, exit_on_error: bool) -> (r: Printer)
        ensures
            r.level() == *log_level,
            r.exits_on_error() == exit_on_error,
            r.errors() == 0,
            r.headlines_view() == Seq::<Seq<char>>::empty(),
            r.statuses_view() == Seq::<Seq<char>>::empty(),
    {
        let r = Printer {
            log_level: *log_level,
            exit_on_error,
            headlines: Vec::new(),
            status_stack: Vec::new(),
            error_count: 0,
        };
        proof {
            assert(r.headlines_view() =~= Seq::<Seq<char>>::empty());
            assert(r.statuses_view() =~= Seq::<Seq<char>>::empty());
        }
        r
    }

    pub fn error_count(&self) -> (r: u64)
        ensures
            r == self.errors(),
    {
        self.error_count
    }

    /// Whether the caller asked the process to stop after the first error.
    pub fn exit_requested(&self) -> (r: bool)
        ensures
            r == (self.exits_on_error() && self.errors() > 0),
    {
        self.exit_on_error && self.error_count > 0
    }

    /// Prefixes each line of the message; an `Off` sink formats nothing.
    pub fn print_formatted(&self, prefix: &str, message: &str) -> (r: Vec<String>)
        ensures
            self.level() == LogLevel::Off ==> r@.len() == 0,
            self.level() != LogLevel::Off ==> r@.map_values(|l: String| l@) == formatted_lines_spec(
                prefix@,
                message@,
            ),
    {
        let mut r: Vec<String> = Vec::new();
        if self.log_level.rank() == 0 {
            return r;
        }
        let pieces = crate::strutil::split_str(message, '\n');
        let ghost piece_views = pieces@.map_values(|p: String| p@);
        let mut i: usize = 0;
        while i < pieces.len()
            invariant
                piece_views == pieces@.map_values(|p: String| p@),
                piece_views == split_spec(message@, '\n'),
                i <= pieces.len(),
                r@.map_values(|l: String| l@) =~= piece_views.subrange(0, i as int).map_values(
                    |l: Seq<char>| prefix@ + seq![' '] + l,
                ),
            decreases pieces.len() - i,
        {
            let ghost old_r = r@;
            let mut line = prefix.to_owned();
            line.push(' ');
            line.append(pieces[i].as_str());
            proof {
                assert(line@ == prefix@ + seq![' '] + piece_views[i as int]);
            }
            r.push(line);
            proof {
                assert(r@.map_values(|l: String| l@) =~= old_r.map_values(|l: String| l@).push(
                    prefix@ + seq![' '] + piece_views[i as int],
                ));
                assert(piece_views.subrange(0, i as int).push(piece_views[i as int])
                    =~= piece_views.subrange(0, i as int + 1));
                assert(piece_views.subrange(0, i as int + 1).map_values(
                    |l: Seq<char>| prefix@ + seq![' '] + l,
                ) =~= piece_views.subrange(0, i as int).map_values(
                    |l: Seq<char>| prefix@ + seq![' '] + l,
                ).push(prefix@ + seq![' '] + piece_views[i as int]));
            }
            i += 1;
        }
        proof {
            assert(piece_views.subrange(0, piece_views.len() as int) =~= piece_views);
        }
        r
    }

    /// Opens a headline frame and hands back its receipt, with the lines a
    /// renderer should show for it (none when `quiet`).
    pub fn push_headline(&mut self, message: &str, quiet: bool) -> (r: (Headline, Vec<String>))
        ensures
            final(self).headlines_view() == old(self).headlines_view().push(message@),
            final(self).level() == old(self).level(),
            final(self).errors() == old(self).errors(),
            final(self).statuses_view() == old(self).statuses_view(),
            final(self).exits_on_error() == old(self).exits_on_error(),
            r.0.message@ == message@,
            quiet ==> r.1@.len() == 0,
            !quiet && old(self).level() != LogLevel::Off ==> r.1@.map_values(|l: String| l@)
                == formatted_lines_spec("-------"@, message@),
    {
        self.headlines.push(message.to_owned());
        proof {
            assert(self.headlines_view() =~= old(self).headlines_view().push(message@));
        }
        let lines = if quiet {
            Vec::new()
        } else {
            self.print_formatted("-------", message)
        };
        (Headline { message: message.to_owned() }, lines)
    }

    pub fn pop_headline(&mut self)
        requires
            old(self).headlines_view().len() > 0,
        ensures
            final(self).headlines_view() == old(self).headlines_view().drop_last(),
            final(self).level() == old(self).level(),
            final(self).errors() == old(self).errors(),
            final(self).statuses_view() == old(self).statuses_view(),
            final(self).exits_on_error() == old(self).exits_on_error(),
    {
        self.headlines.pop();
        proof {
            assert(self.headlines_view() =~= old(self).headlines_view().drop_last());
        }
    }

    /// Counts the error and formats it when the level shows errors.
    pub fn error(&mut self, message: &str) -> (r: Vec<String>)
        requires
            old(self).errors() < u64::MAX,
        ensures
            final(self).errors() == old(self).errors() + 1,
            final(self).level() == old(self).level(),
            final(self).headlines_view() == old(self).headlines_view(),
            final(self).statuses_view() == old(self).statuses_view(),
            final(self).exits_on_error() == old(self).exits_on_error(),
            level_rank_spec(old(self).level()) >= 1 && old(self).level() != LogLevel::Off
                ==> r@.map_values(|l: String| l@) == formatted_lines_spec(" ERROR:"@, message@),
    {
        self.error_count = self.error_count + 1;
        if self.log_level.rank() >= 1 {
            self.print_formatted(" ERROR:", message)
        } else {
            Vec::new()
        }
    }

    pub fn warn(&self, message: &str) -> (r: Vec<String>)
        ensures
            level_rank_spec(self.level()) >= 2 ==> r@.map_values(|l: String| l@)
                == formatted_lines_spec(" WARN :"@, message@),
    {
        if self.log_level.rank() >= 2 {
            self.print_formatted(" WARN :", message)
        } else {
            Vec::new()
        }
    }

    pub fn info(&self, message: &str) -> (r: Vec<String>)
        ensures
            level_rank_spec(self.level()) >= 3 ==> r@.map_values(|l: String| l@)
                == formatted_lines_spec(" INFO :"@, message@),
    {
        if self.log_level.rank() >= 3 {
            self.print_formatted(" INFO :", message)
        } else {
            Vec::new()
        }
    }

    pub fn debug(&self, message: &str) -> (r: Vec<String>)
        ensures
            level_rank_spec(self.level()) >= 4 ==> r@.map_values(|l: String| l@)
                == formatted_lines_spec("DEBUG :"@, message@),
    {
        if self.log_level.rank() >= 4 {
            self.print_formatted("DEBUG :", message)
        } else {
            Vec::new()
        }
    }

    pub fn trace(&self, message: &str) -> (r: Vec<String>)
        ensures
            level_rank_spec(self.level()) >= 5 ==> r@.map_values(|l: String| l@)
                == formatted_lines_spec("TRACE :"@, message@),
    {
        if self.log_level.rank() >= 5 {
            self.print_formatted("TRACE :", message)
        } else {
            Vec::new()
        }
    }

    pub fn print(&self, message: &str) -> (r: Vec<String>)
        ensures
            self.level() != LogLevel::Off ==> r@.map_values(|l: String| l@) == formatted_lines_spec(
                "      :"@,
                message@,
            ),
    {
        self.print_formatted("      :", message)
    }

    pub fn print_stdout(&self, message: &str) -> (r: Vec<String>)
        ensures
            self.level() != LogLevel::Off ==> r@.map_values(|l: String| l@) == formatted_lines_spec(
                "stdout:"@,
                message@,
            ),
    {
        self.print_formatted("stdout:", message)
    }

    pub fn print_stderr(&self, message: &str) -> (r: Vec<String>)
        ensures
            self.level() != LogLevel::Off ==> r@.map_values(|l: String| l@) == formatted_lines_spec(
                "stderr:"@,
                message@,
            ),
    {
        self.print_formatted("stderr:", message)
    }

    pub fn push_status(&mut self, message: &str)
        ensures
            final(self).statuses_view() == old(self).statuses_view().push(message@),
            final(self).level() == old(self).level(),
            final(self).errors() == old(self).errors(),
            final(self).headlines_view() == old(self).headlines_view(),
            final(self).exits_on_error() == old(self).exits_on_error(),
    {
        self.status_stack.push(message.to_owned());
        proof {
            assert(self.statuses_view() =~= old(self).statuses_view().push(message@));
        }
    }

    pub fn pop_status(&mut self)
        ensures
            old(self).statuses_view().len() > 0 ==> final(self).statuses_view() == old(
                self,
            ).statuses_view().drop_last(),
            old(self).statuses_view().len() == 0 ==> final(self).statuses_view() == old(
                self,
            ).statuses_view(),
            final(self).level() == old(self).level(),
            final(self).errors() == old(self).errors(),
            final(self).headlines_view() == old(self).headlines_view(),
            final(self).exits_on_error() == old(self).exits_on_error(),
    {
        let _ = self.status_stack.pop();
        proof {
            if old(self).statuses_view().len() > 0 {
                assert(self.statuses_view() =~= old(self).statuses_view().drop_last());
            } else {
                assert(self.statuses_view() =~= old(self).statuses_view());
            }
        }
    }
}

} // verus!
