use vstd::prelude::*;

verus! {

/// What a `Flags` value holds, as plain mathematical values.
pub struct FlagsView {
    pub nocolor: bool,
    pub timestamp: bool,
    pub append: bool,
    pub instead_crlf: bool,
    pub hexdump: bool,
    pub debug: bool,
    pub write_file: Option<Seq<char>>,
}

/// The view of an optional string: the same option over the string's characters.
pub open spec fn opt_string_view(s: Option<String>) -> Option<Seq<char>> {
    match s {
        Some(s) => Some(s@),
        None => None,
    }
}

/// Session switches that the receiving and transmitting sides share.
#[derive(Clone)]
pub struct Flags {
    nocolor: bool,
    timestamp: bool,
    append: bool,
    instead_crlf: bool,
    hexdump: bool,
    debug: bool,
    write_file: Option<String>,
}

impl View for Flags {
    type V = FlagsView;

    closed spec fn view(&self) -> FlagsView {
        FlagsView {
            nocolor: self.nocolor,
            timestamp: self.timestamp,
            append: self.append,
            instead_crlf: self.instead_crlf,
            hexdump: self.hexdump,
            debug: self.debug,
            write_file: opt_string_view(self.write_file),
        }
    }
}

impl Flags {
    /// Builds the switches; the hexdump mode always starts off.
    pub fn new(
        nocolor: bool,
        timestamp: bool,
        append: bool,
        instead_crlf: bool,
        debug: bool,
        write_file: Option<String>,
    ) -> (f: Self)
        ensures
            f@ == (FlagsView {
                nocolor,
                timestamp,
                append,
                instead_crlf,
                hexdump: false,
                debug,
                write_file: opt_string_view(write_file),
            }),
    {
        Self { nocolor, timestamp, append, instead_crlf, hexdump: false, debug, write_file }
    }

    pub fn nocolor(&self) -> (r: &bool)
        ensures
            *r == self@.nocolor,
    {
        &self.nocolor
    }

    /// Gives write access to the `nocolor` switch; every other switch keeps its value.
    pub fn nocolor_mut(&mut self) -> (r: &mut bool)
        ensures
            *r == old(self)@.nocolor,
            final(self)@ == (FlagsView { nocolor: *final(r), ..old(self)@ }),
    {
        &mut self.nocolor
    }

    pub fn timestamp(&self) -> (r: &bool)
        ensures
            *r == self@.timestamp,
    {
        &self.timestamp
    }

    /// Gives write access to the `timestamp` switch; every other switch keeps its value.
    pub fn timestamp_mut(&mut self) -> (r: &mut bool)
        ensures
            *r == old(self)@.timestamp,
            final(self)@ == (FlagsView { timestamp: *final(r), ..old(self)@ }),
    {
        &mut self.timestamp
    }

    pub fn append(&self) -> (r: &bool)
        ensures
            *r == self@.append,
    {
        &self.append
    }

    /// Gives write access to the `append` switch; every other switch keeps its value.
    pub fn append_mut(&mut self) -> (r: &mut bool)
        ensures
            *r == old(self)@.append,
            final(self)@ == (FlagsView { append: *final(r), ..old(self)@ }),
    {
        &mut self.append
    }

    pub fn instead_crlf(&self) -> (r: &bool)
        ensures
            *r == self@.instead_crlf,
    {
        &self.instead_crlf
    }

    /// Gives write access to the `instead_crlf` switch; every other switch keeps its value.
    pub fn instead_crlf_mut(&mut self) -> (r: &mut bool)
        ensures
            *r == old(self)@.instead_crlf,
            final(self)@ == (FlagsView { instead_crlf: *final(r), ..old(self)@ }),
    {
        &mut self.instead_crlf
    }

    pub fn hexdump(&self) -> (r: &bool)
        ensures
            *r == self@.hexdump,
    {
        &self.hexdump
    }

    /// Gives write access to the `hexdump` switch; every other switch keeps its value.
    pub fn hexdump_mut(&mut self) -> (r: &mut bool)
        ensures
            *r == old(self)@.hexdump,
            final(self)@ == (FlagsView { hexdump: *final(r), ..old(self)@ }),
    {
        &mut self.hexdump
    }

    pub fn debug(&self) -> (r: &bool)
        ensures
            *r == self@.debug,
    {
        &self.debug
    }

    /// Gives write access to the `debug` switch; every other switch keeps its value.
    pub fn debug_mut(&mut self) -> (r: &mut bool)
        ensures
            *r == old(self)@.debug,
            final(self)@ == (FlagsView { debug: *final(r), ..old(self)@ }),
    {
        &mut self.debug
    }

    /// A copy of the log file path, if one was given.
    pub fn write_file(&self) -> (r: Option<String>)
        ensures
            opt_string_view(r) == self@.write_file,
    {
        match &self.write_file {
            Some(s) => Some(s.clone()),
            None => None,
        }
    }
}

} // verus!
