use vstd::prelude::*;

verus! {

/// Messages kept for the user to read later.
pub struct Logger {
    entries: Vec<String>,
    debug: bool,
}

impl Logger {
    /// What has been logged, oldest first.
    pub closed spec fn logged(&self) -> Seq<Seq<char>> {
        self.entries@.map_values(|s: String| s@)
    }

    /// Whether debugging messages are kept too.
    pub closed spec fn keeps_debug(&self) -> bool {
        self.debug
    }

    /// An empty log; `debug` tells whether debugging messages are kept.
    pub fn new(debug: bool) -> (l: Self)
        ensures
            l.logged().len() == 0,
            l.keeps_debug() == debug,
    {
        let l = Logger { entries: Vec::new(), debug };
        assert(l.logged() =~= Seq::<Seq<char>>::empty());
        l
    }

    /// Logs `s`.
    pub fn log(&mut self, s: String)
        ensures
            final(self).logged() == old(self).logged().push(s@),
            final(self).keeps_debug() == old(self).keeps_debug(),
    {
        self.entries.push(s);
        assert(self.logged() =~= old(self).logged().push(s@));
    }

    /// Logs `s` if debugging messages are kept.
    pub fn log_debug(&mut self, s: String)
        ensures
            final(self).logged() == if old(self).keeps_debug() {
                old(self).logged().push(s@)
            } else {
                old(self).logged()
            },
            final(self).keeps_debug() == old(self).keeps_debug(),
    {
        if self.debug {
            self.log(s);
        }
    }

    /// Keeps debugging messages from now on if `debug`, and drops them if
    /// not.
    pub fn set_debug(&mut self, debug: bool)
        ensures
            final(self).logged() == old(self).logged(),
            final(self).keeps_debug() == debug,
    {
        self.debug = debug;
    }

    /// The number of entries.
    pub fn len(&self) -> (n: usize)
        ensures
            n == self.logged().len(),
    {
        self.entries.len()
    }

    /// Entry `i`.
    pub fn entry(&self, i: usize) -> (s: &String)
        requires
            i < self.logged().len(),
        ensures
            s@ == self.logged()[i as int],
    {
        &self.entries[i]
    }
}

} // verus!
