//! Application navigation state: the active tab index over a fixed list of
//! tab titles, cycled circularly by keyboard events.

use vstd::prelude::*;

verus! {

/// A keyboard event as the frame driver's decision logic sees it.
#[derive(Clone, Copy, Debug, PartialEq, Eq, Structural)]
pub enum InputEvent {
    /// The quit key: leave the event loop.
    Quit,
    /// Navigate to the previous tab.
    NavLeft,
    /// Navigate to the next tab.
    NavRight,
    /// Any other key: ignored.
    Other,
}

/// Top-level application state: tab titles and the active tab index.
pub struct App {
    pub titles: Vec<Vec<char>>,
    pub index: usize,
}

impl App {
    /// There is at least one tab and the active index addresses one of them.
    pub open spec fn wf(self) -> bool {
        self.titles.len() > 0 && self.index < self.titles.len()
    }

    /// The dashboard's two views: tasks and servers; the first is active.
    pub fn new() -> (r: App)
        ensures
            r.titles@.len() == 2,
            r.titles@[0]@ == seq!['T', 'a', 's', 'k'],
            r.titles@[1]@ == seq!['S', 'e', 'r', 'v', 'e', 'r'],
            r.index == 0,
            r.wf(),
    {
        let mut titles: Vec<Vec<char>> = Vec::new();
        let mut task: Vec<char> = Vec::new();
        task.push('T');
        task.push('a');
        task.push('s');
        task.push('k');
        let mut server: Vec<char> = Vec::new();
        server.push('S');
        server.push('e');
        server.push('r');
        server.push('v');
        server.push('e');
        server.push('r');
        titles.push(task);
        titles.push(server);
        proof {
            assert(titles@[0]@ =~= seq!['T', 'a', 's', 'k']);
            assert(titles@[1]@ =~= seq!['S', 'e', 'r', 'v', 'e', 'r']);
        }
        App { titles, index: 0 }
    }

    /// Activate the next tab, wrapping from the last back to the first.
    pub fn next(&mut self)
        requires
            old(self).wf(),
        ensures
            final(self).titles == old(self).titles,
            final(self).index == if old(self).index >= old(self).titles.len() - 1 {
                0usize
            } else {
                (old(self).index + 1) as usize
            },
            final(self).wf(),
    {
        proof {
            let i = old(self).index as int;
            let n = old(self).titles@.len() as int;
            assert((i + 1) % n == if i + 1 == n { 0int } else { i + 1 }) by (nonlinear_arith)
                requires 0 <= i < n;
        }
        self.index = (self.index + 1) % self.titles.len();
    }

    /// Activate the previous tab, wrapping from the first to the last.
    pub fn previous(&mut self)
        requires
            old(self).wf(),
        ensures
            final(self).titles == old(self).titles,
            final(self).index == if old(self).index == 0 {
                (old(self).titles.len() - 1) as usize
            } else {
                (old(self).index - 1) as usize
            },
            final(self).wf(),
    {
        if self.index > 0 {
            self.index = self.index - 1;
        } else {
            self.index = self.titles.len() - 1;
        }
    }
}

/// The tab index after one navigation event; non-navigation events leave it
/// unchanged.
pub open spec fn nav_index(index: usize, len: usize, ev: InputEvent) -> usize
    recommends
        len > 0,
{
    match ev {
        InputEvent::NavRight => if index >= len - 1 { 0usize } else { (index + 1) as usize },
        InputEvent::NavLeft => if index == 0 { (len - 1) as usize } else { (index - 1) as usize },
        InputEvent::Quit => index,
        InputEvent::Other => index,
    }
}

/// The tab index after a whole sequence of navigation events.
pub open spec fn nav_run(index: usize, len: usize, evs: Seq<InputEvent>) -> usize
    decreases evs.len(),
{
    if evs.len() == 0 {
        index
    } else {
        nav_index(nav_run(index, len, evs.drop_last()), len, evs.last())
    }
}

/// Any sequence of navigation events keeps the active index within bounds.
pub proof fn lemma_nav_run_in_bounds(index: usize, len: usize, evs: Seq<InputEvent>)
    requires
        len > 0,
        index < len,
    ensures
        nav_run(index, len, evs) < len,
    decreases evs.len(),
{
    if evs.len() > 0 {
        lemma_nav_run_in_bounds(index, len, evs.drop_last());
    }
}

/// One step of the frame driver's decision logic: map an input event to a
/// state change, and report whether the loop should quit.
pub fn update(app: &mut App, ev: InputEvent) -> (quit: bool)
    requires
        old(app).wf(),
    ensures
        final(app).wf(),
        final(app).titles == old(app).titles,
        quit == (ev == InputEvent::Quit),
        final(app).index == nav_index(old(app).index, old(app).titles.len(), ev),
{
    match ev {
        InputEvent::Quit => true,
        InputEvent::NavLeft => {
            app.previous();
            false
        }
        InputEvent::NavRight => {
            app.next();
            false
        }
        InputEvent::Other => false,
    }
}

} // verus!
