//! Small generic components that carry plain values: a progress
//! counter and a text box. The drawing components live with the host's
//! rendering layer.

use vstd::prelude::*;

verus! {

/// Work progress: how much of a known total is finished.
#[derive(Debug, PartialEq, Eq)]
pub struct Progress {
    pub description: Vec<u8>,
    pub total_work: usize,
    pub finished: usize,
}

impl Progress {
    /// Fresh progress over `total_work` units, none finished.
    pub fn new(s: Vec<u8>, total_work: usize) -> (r: Progress)
        ensures
            r.description == s,
            r.total_work == total_work,
            r.finished == 0,
    {
        Progress { description: s, total_work, finished: 0 }
    }

    /// Record `n` more units; once the total is reached, further work
    /// is not counted.
    pub fn add_work(&mut self, n: usize)
        requires
            n <= usize::MAX - old(self).finished,
        ensures
            final(self).description == old(self).description,
            final(self).total_work == old(self).total_work,
            final(self).finished == (if old(self).finished >= old(self).total_work {
                old(self).finished as int
            } else {
                old(self).finished + n
            }),
    {
        if self.finished >= self.total_work {
            return ;
        }
        self.finished = self.finished + n;
    }

    /// Finished work in percent, capped at one hundred.
    pub fn percentage(&self) -> (r: usize)
        ensures
            r == (if self.total_work == 0 {
                0
            } else if self.finished >= self.total_work {
                100
            } else {
                (100 * self.finished as int) / (self.total_work as int)
            }),
    {
        if self.total_work == 0 {
            return 0;
        }
        if self.finished >= self.total_work {
            return 100;
        }
        let wide = (100u128 * self.finished as u128) / self.total_work as u128;
        proof {
            let f = self.finished as int;
            let t = self.total_work as int;
            assert((100 * f) / t < 100) by (nonlinear_arith)
                requires
                    0 < t,
                    0 <= f < t,
            ;
        }
        wide as usize
    }

    /// What is being worked on.
    pub fn description(&self) -> (r: &Vec<u8>)
        ensures
            r == &self.description,
    {
        &self.description
    }
}

/// A box with text content.
#[derive(Debug, PartialEq, Eq)]
pub struct TextBox {
    pub content: Vec<u8>,
}

impl TextBox {
    /// A box holding the given text.
    pub fn new(s: Vec<u8>) -> (r: TextBox)
        ensures
            r.content == s,
    {
        TextBox { content: s }
    }
}

} // verus!
