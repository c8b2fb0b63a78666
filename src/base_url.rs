//! A site's on/off switch for crawling.
use vstd::prelude::*;

verus! {

pub struct BaseUrl {
    crawling: bool,
}

impl View for BaseUrl {
    type V = bool;

    closed spec fn view(&self) -> bool {
        self.crawling
    }
}

impl BaseUrl {
    pub fn new() -> (r: Self)
        ensures
            r@ == false,
    {
        BaseUrl { crawling: false }
    }

    pub fn start_crawling(&mut self)
        ensures
            final(self)@ == true,
    {
        self.crawling = true;
    }

    pub fn stop_crawling(&mut self)
        ensures
            final(self)@ == false,
    {
        self.crawling = false;
    }

    pub fn is_crawling(&self) -> (r: bool)
        ensures
            r == self@,
    {
        self.crawling
    }
}

} // verus!
