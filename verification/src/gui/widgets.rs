//! The state of the two widgets that every panel uses: a path field and a
//! status line that fades after a while.

use vstd::prelude::*;

verus! {

/// A moment of the monotonic clock of std.
#[verifier::external_type_specification]
#[verifier::external_body]
pub struct ExInstant(std::time::Instant);

/// Calls `Instant::now`. Nothing is said of the moment it gives.
#[verifier::external_body]
fn instant_now() -> (t: std::time::Instant) {
    std::time::Instant::now()
}

/// Calls `Instant::elapsed` and gives the whole seconds of the span.
/// Nothing is said of the number.
#[verifier::external_body]
fn seconds_since(t: &std::time::Instant) -> (s: u64) {
    t.elapsed().as_secs()
}

/// A field that holds a directory path, with its label and the title of
/// its dialog.
pub struct PathPicker {
    path: String,
    label: String,
    dialog_title: String,
}

impl PathPicker {
    /// The path that the field holds.
    pub closed spec fn value(&self) -> Seq<char> {
        self.path@
    }

    /// The label beside the field.
    pub closed spec fn label_text(&self) -> Seq<char> {
        self.label@
    }

    /// The title of the dialog that picks a directory.
    pub closed spec fn title_text(&self) -> Seq<char> {
        self.dialog_title@
    }

    /// An empty field with the given label and dialog title.
    pub fn new(label: &str, dialog_title: &str) -> (p: PathPicker)
        ensures
            p.value() == Seq::<char>::empty(),
            p.label_text() == label@,
            p.title_text() == dialog_title@,
    {
        PathPicker {
            path: String::new(),
            label: label.to_owned(),
            dialog_title: dialog_title.to_owned(),
        }
    }

    /// The path that the field holds.
    pub fn path(&self) -> (p: String)
        ensures
            p@ == self.value(),
    {
        self.path.clone()
    }

    /// Puts `path` into the field.
    pub fn set_path(&mut self, path: &String)
        ensures
            final(self).value() == path@,
            final(self).label_text() == old(self).label_text(),
            final(self).title_text() == old(self).title_text(),
    {
        self.path = path.clone();
    }

    /// Empties the field.
    pub fn clear(&mut self)
        ensures
            final(self).value() == Seq::<char>::empty(),
            final(self).label_text() == old(self).label_text(),
            final(self).title_text() == old(self).title_text(),
    {
        self.path = String::new();
    }

    /// The label beside the field.
    pub fn label(&self) -> (l: &str)
        ensures
            l@ == self.label_text(),
    {
        self.label.as_str()
    }

    /// The title of the dialog that picks a directory.
    pub fn dialog_title(&self) -> (t: &str)
        ensures
            t@ == self.title_text(),
    {
        self.dialog_title.as_str()
    }
}

/// The seconds for which a status line stays.
pub const STATUS_SECONDS: u64 = 5;

/// A status line: a message, whether it reports an error, and the moment
/// it was set.
pub struct StatusDisplay {
    message: Option<String>,
    is_error: bool,
    timestamp: Option<std::time::Instant>,
    duration: u64,
}

/// Whether a message that was set `elapsed` seconds ago has outstayed
/// `duration` seconds.
pub open spec fn outstayed(elapsed: u64, duration: u64) -> bool {
    elapsed > duration
}

/// Whether a message that was set `elapsed` seconds ago has outstayed
/// `duration` seconds.
pub fn has_outstayed(elapsed: u64, duration: u64) -> (b: bool)
    ensures
        b == outstayed(elapsed, duration),
{
    elapsed > duration
}

impl StatusDisplay {
    /// The message on the line, if there is one.
    pub closed spec fn text(&self) -> Option<Seq<char>> {
        match self.message {
            Some(m) => Some(m@),
            None => None,
        }
    }

    /// Whether the line reports an error.
    pub closed spec fn error(&self) -> bool {
        self.is_error
    }

    /// Whether the line remembers when its message was set.
    pub closed spec fn timed(&self) -> bool {
        self.timestamp is Some
    }

    /// The seconds for which a message stays.
    pub closed spec fn stays(&self) -> u64 {
        self.duration
    }

    /// Puts a message on the line, from now on.
    pub fn set_message(&mut self, message: String, is_error: bool)
        ensures
            final(self).text() == Some(message@),
            final(self).error() == is_error,
            final(self).timed(),
            final(self).stays() == old(self).stays(),
    {
        self.message = Some(message);
        self.is_error = is_error;
        self.timestamp = Some(instant_now());
    }

    /// Puts an error message on the line.
    pub fn set_error(&mut self, message: String)
        ensures
            final(self).text() == Some(message@),
            final(self).error(),
            final(self).timed(),
            final(self).stays() == old(self).stays(),
    {
        self.set_message(message, true);
    }

    /// Puts a message that is no error on the line.
    pub fn set_info(&mut self, message: String)
        ensures
            final(self).text() == Some(message@),
            !final(self).error(),
            final(self).timed(),
            final(self).stays() == old(self).stays(),
    {
        self.set_message(message, false);
    }

    /// Takes the message off the line.
    pub fn clear(&mut self)
        ensures
            final(self).text() is None,
            !final(self).timed(),
            final(self).error() == old(self).error(),
            final(self).stays() == old(self).stays(),
    {
        self.message = None;
        self.timestamp = None;
    }

    /// The message to show now and whether it reports an error. A message
    /// that has outstayed its time is taken off the line first; one whose
    /// moment is not remembered stays.
    pub fn current(&mut self) -> (shown: Option<(String, bool)>)
        ensures
            old(self).text() is None ==> shown is None && final(self).text() is None,
            shown matches Some(s) ==> old(self).text() == Some(s.0@) && s.1 == old(self).error()
                && final(self).text() == old(self).text(),
            shown is None ==> final(self).text() is None && !final(self).timed(),
            old(self).text() is Some && !old(self).timed() ==> shown is Some,
            final(self).error() == old(self).error(),
            final(self).stays() == old(self).stays(),
    {
        let gone = match &self.timestamp {
            Some(t) => has_outstayed(seconds_since(t), self.duration),
            None => false,
        };
        if gone || self.message.is_none() {
            self.message = None;
            self.timestamp = None;
            return None;
        }
        match &self.message {
            Some(m) => Some((m.clone(), self.is_error)),
            None => None,
        }
    }
}

impl Default for StatusDisplay {
    fn default() -> (s: StatusDisplay)
        ensures
            s.text() is None,
            !s.error(),
            !s.timed(),
            s.stays() == STATUS_SECONDS,
    {
        StatusDisplay { message: None, is_error: false, timestamp: None, duration: STATUS_SECONDS }
    }
}

} // verus!
