//! The terminal front end's state: the intercepted-request history, the tab
//! and selection bookkeeping, and the text each view shows. The drawing and
//! the key events stay outside; every decision they act on is taken here.

use vstd::prelude::*;

use crate::num::{dec_chars, usize_to_string};

verus! {

/// One intercepted request as the history records it.
pub struct Req {
    pub id: usize,
    pub host: String,
    pub method: String,
    pub url: String,
    pub status: usize,
    pub headers: Vec<String>,
}

/// Spec-level history record.
pub struct ReqModel {
    pub id: usize,
    pub host: Seq<char>,
    pub method: Seq<char>,
    pub url: Seq<char>,
    pub status: usize,
    pub headers: Seq<Seq<char>>,
}

impl View for Req {
    type V = ReqModel;

    open spec fn view(&self) -> ReqModel {
        (ReqModel {
            id: self.id,
            host: self.host@,
            method: self.method@,
            url: self.url@,
            status: self.status,
            headers: self.headers@.map_values(|s: String| s@),
        })
    }
}

/// Header lines followed by line breaks, in order.
pub open spec fn lines_block(hs: Seq<Seq<char>>) -> Seq<char>
    decreases hs.len(),
{
    if hs.len() == 0 {
        Seq::empty()
    } else {
        lines_block(hs.drop_last()) + hs.last() + seq!['\n']
    }
}

/// The text of one history detail view: the request line, the host line,
/// then every recorded header on its own line.
pub open spec fn paragraph_chars(m: ReqModel) -> Seq<char> {
    m.method + seq![' '] + m.url + seq!['\n'] + seq!['H', 'o', 's', 't', ':', ' '] + m.host
        + seq!['\n'] + lines_block(m.headers)
}

impl Req {
    /// The five cells of this record's history row: id, host, method, url,
    /// status.
    pub fn to_row(&self) -> (r: Vec<String>)
        ensures
            r@.len() == 5,
            r@[0]@ == dec_chars(self.id as nat),
            r@[1]@ == self@.host,
            r@[2]@ == self@.method,
            r@[3]@ == self@.url,
            r@[4]@ == dec_chars(self.status as nat),
    {
        let mut out: Vec<String> = Vec::new();
        out.push(usize_to_string(self.id));
        out.push(self.host.clone());
        out.push(self.method.clone());
        out.push(self.url.clone());
        out.push(usize_to_string(self.status));
        out
    }

    /// The detail paragraph of this record, as [`paragraph_chars`] lays it
    /// out.
    pub fn to_paragraph(&self) -> (r: String)
        ensures
            r@ == paragraph_chars(self@),
    {
        let mut p = self.method.clone();
        p.append(" ");
        p.append(self.url.as_str());
        p.append("\n");
        p.append("Host: ");
        p.append(self.host.as_str());
        p.append("\n");
        proof {
            reveal_strlit(" ");
            reveal_strlit("\n");
            reveal_strlit("Host: ");
            assert((" ")@ =~= seq![' ']);
            assert(("\n")@ =~= seq!['\n']);
            assert(("Host: ")@ =~= seq!['H', 'o', 's', 't', ':', ' ']);
        }
        let ghost head = p@;
        let ghost hm = self.headers@.map_values(|s: String| s@);
        let mut i: usize = 0;
        proof {
            assert(hm.subrange(0, 0) =~= Seq::<Seq<char>>::empty());
        }
        while i < self.headers.len()
            invariant
                0 <= i <= self.headers@.len(),
                hm == self.headers@.map_values(|s: String| s@),
                p@ == head + lines_block(hm.subrange(0, i as int)),
            decreases self.headers@.len() - i,
        {
            p.append(self.headers[i].as_str());
            p.append("\n");
            proof {
                reveal_strlit("\n");
                assert(("\n")@ =~= seq!['\n']);
                assert(hm[i as int] == self.headers@[i as int]@);
                let pre = hm.subrange(0, i as int);
                let post = hm.subrange(0, i + 1);
                assert(post.drop_last() =~= pre);
                assert(post.last() == hm[i as int]);
                assert(p@ =~= head + lines_block(post));
            }
            i = i + 1;
        }
        proof {
            assert(hm.subrange(0, hm.len() as int) =~= hm);
            assert(p@ =~= paragraph_chars(self@));
        }
        p
    }
}

/// The terminal front end's state: tab titles, the selected tab, the
/// history and the selected history row.
pub struct App {
    pub titles: Vec<String>,
    pub index: usize,
    pub history: Vec<Req>,
    pub selected: Option<usize>,
}

impl App {
    /// A fresh front end: the three tabs, nothing intercepted, nothing
    /// selected.
    pub fn new() -> (r: App)
        ensures
            r.titles@.len() == 3,
            r.titles@[0]@ =~= ("Intercept")@,
            r.titles@[1]@ =~= ("History")@,
            r.titles@[2]@ =~= ("Settings")@,
            r.index == 0,
            r.history@.len() == 0,
            r.selected is None,
    {
        let mut titles: Vec<String> = Vec::new();
        titles.push(String::from_str("Intercept"));
        titles.push(String::from_str("History"));
        titles.push(String::from_str("Settings"));
        App { titles, index: 0, history: Vec::new(), selected: None }
    }

    /// Moves to the next tab, wrapping around.
    pub fn next_tab(&mut self)
        requires
            old(self).titles@.len() > 0,
            old(self).index < usize::MAX,
        ensures
            final(self).index == (old(self).index + 1) % (old(self).titles@.len() as int),
            final(self).titles == old(self).titles,
            final(self).history == old(self).history,
            final(self).selected == old(self).selected,
    {
        self.index = (self.index + 1) % self.titles.len();
    }

    /// Moves to the previous tab, wrapping around.
    pub fn previous_tab(&mut self)
        requires
            old(self).titles@.len() > 0,
        ensures
            final(self).index == if old(self).index > 0 {
                (old(self).index - 1) as usize
            } else {
                (old(self).titles@.len() - 1) as usize
            },
            final(self).titles == old(self).titles,
            final(self).history == old(self).history,
            final(self).selected == old(self).selected,
    {
        if self.index > 0 {
            self.index = self.index - 1;
        } else {
            self.index = self.titles.len() - 1;
        }
    }

    /// Jumps to the given tab.
    pub fn go_to_tab(&mut self, index: usize)
        ensures
            final(self).index == index,
            final(self).titles == old(self).titles,
            final(self).history == old(self).history,
            final(self).selected == old(self).selected,
    {
        self.index = index;
    }

    /// Moves the history selection down one row: onto the first row if
    /// nothing is selected, and not past the last row of a non-empty
    /// history.
    pub fn next_hist_item(&mut self)
        requires
            old(self).selected matches Option::Some(i) ==> i < usize::MAX,
        ensures
            final(self).selected == Option::Some(
                match old(self).selected {
                    Option::Some(i) => if old(self).history@.len() > 0 && i + 1
                        >= old(self).history@.len() {
                        i
                    } else {
                        (i + 1) as usize
                    },
                    Option::None => 0usize,
                },
            ),
            final(self).titles == old(self).titles,
            final(self).index == old(self).index,
            final(self).history == old(self).history,
    {
        let i: usize = match self.selected {
            Some(i) => {
                if self.history.len() > 0 && i >= self.history.len() - 1 {
                    i
                } else {
                    i + 1
                }
            },
            None => 0,
        };
        self.selected = Some(i);
    }

    /// Moves the history selection up one row, stopping at the first.
    pub fn prev_hist_item(&mut self)
        ensures
            final(self).selected == Option::Some(
                match old(self).selected {
                    Option::Some(i) => if i == 0 {
                        0usize
                    } else {
                        (i - 1) as usize
                    },
                    Option::None => 0usize,
                },
            ),
            final(self).titles == old(self).titles,
            final(self).index == old(self).index,
            final(self).history == old(self).history,
    {
        let i: usize = match self.selected {
            Some(i) => {
                if i == 0 {
                    0
                } else {
                    i - 1
                }
            },
            None => 0,
        };
        self.selected = Some(i);
    }

    /// Appends one intercepted message to the history, as the inspection
    /// channel delivers it.
    pub fn record_message(&mut self, message: String)
        requires
            old(self).history@.len() < usize::MAX,
        ensures
            final(self).history@.len() == old(self).history@.len() + 1,
            final(self).history@.last()@ == (ReqModel {
                id: (old(self).history@.len() + 1) as usize,
                host: message@,
                method: ("GET")@,
                url: ("http://test.com")@,
                status: 200usize,
                headers: seq![("")@],
            }),
            final(self).history@.subrange(0, old(self).history@.len() as int) == old(
                self,
            ).history@,
            final(self).titles == old(self).titles,
            final(self).index == old(self).index,
            final(self).selected == old(self).selected,
    {
        let id = self.history.len() + 1;
        let mut headers: Vec<String> = Vec::new();
        headers.push(String::from_str(""));
        let rec = Req {
            id,
            host: message,
            method: String::from_str("GET"),
            url: String::from_str("http://test.com"),
            status: 200,
            headers,
        };
        self.history.push(rec);
        proof {
            assert(final(self).history@.last()@.headers =~= seq![("")@]);
            assert(final(self).history@.subrange(0, old(self).history@.len() as int) =~= old(
                self,
            ).history@);
        }
    }

    /// Appends one full event record to the history, its id assigned as
    /// the next position.
    pub fn record(&mut self, rec: Req)
        requires
            old(self).history@.len() < usize::MAX,
        ensures
            final(self).history@.len() == old(self).history@.len() + 1,
            final(self).history@.last()@ == (ReqModel {
                id: (old(self).history@.len() + 1) as usize,
                host: rec.host@,
                method: rec.method@,
                url: rec.url@,
                status: rec.status,
                headers: rec.headers@.map_values(|s: String| s@),
            }),
            final(self).history@.subrange(0, old(self).history@.len() as int) == old(
                self,
            ).history@,
            final(self).titles == old(self).titles,
            final(self).index == old(self).index,
            final(self).selected == old(self).selected,
    {
        let id = self.history.len() + 1;
        let entry = Req {
            id,
            host: rec.host,
            method: rec.method,
            url: rec.url,
            status: rec.status,
            headers: rec.headers,
        };
        self.history.push(entry);
        proof {
            assert(final(self).history@.subrange(0, old(self).history@.len() as int) =~= old(
                self,
            ).history@);
        }
    }

    /// The text of the detail pane: the selected record's paragraph, or
    /// nothing when the history is empty or nothing is selected.
    pub fn detail_text(&self) -> (r: String)
        requires
            self.selected matches Option::Some(i) ==> self.history@.len() == 0 || i
                < self.history@.len(),
        ensures
            r@ == match self.selected {
                Option::Some(i) => if self.history@.len() > 0 {
                    paragraph_chars(self.history@[i as int]@)
                } else {
                    Seq::<char>::empty()
                },
                Option::None => Seq::<char>::empty(),
            },
    {
        match self.selected {
            Some(i) => {
                if self.history.len() > 0 {
                    self.history[i].to_paragraph()
                } else {
                    String::new()
                }
            },
            None => String::new(),
        }
    }
}

/// A key press, as the front end understands it.
pub enum Key {
    Char(char),
    Tab,
    BackTab,
    Other,
}

/// Applies one key press to the front end: `q` quits, `Tab` and `BackTab`
/// cycle the tabs, `i`/`h`/`s` jump to a tab, `j`/`k` move the history
/// selection; anything else does nothing.
pub fn handle_key(app: &mut App, k: Key) -> (quit: bool)
    requires
        old(app).titles@.len() > 0,
        old(app).index < usize::MAX,
        old(app).selected matches Option::Some(i) ==> i < usize::MAX,
    ensures
        quit == (k matches Key::Char(c) && c == 'q'),
        final(app).titles == old(app).titles,
        final(app).history == old(app).history,
        final(app).index == match k {
            Key::Char(c) => if c == 'i' {
                0usize
            } else if c == 'h' {
                1usize
            } else if c == 's' {
                2usize
            } else {
                old(app).index
            },
            Key::Tab => ((old(app).index + 1) % (old(app).titles@.len() as int)) as usize,
            Key::BackTab => if old(app).index > 0 {
                (old(app).index - 1) as usize
            } else {
                (old(app).titles@.len() - 1) as usize
            },
            Key::Other => old(app).index,
        },
        final(app).selected == match k {
            Key::Char(c) => if c == 'j' {
                Option::Some(
                    match old(app).selected {
                        Option::Some(i) => if old(app).history@.len() > 0 && i + 1
                            >= old(app).history@.len() {
                            i
                        } else {
                            (i + 1) as usize
                        },
                        Option::None => 0usize,
                    },
                )
            } else if c == 'k' {
                Option::Some(
                    match old(app).selected {
                        Option::Some(i) => if i == 0 {
                            0usize
                        } else {
                            (i - 1) as usize
                        },
                        Option::None => 0usize,
                    },
                )
            } else {
                old(app).selected
            },
            _ => old(app).selected,
        },
{
    match k {
        Key::Char(c) => {
            if c == 'q' {
                return true;
            }
            if c == 'i' {
                app.go_to_tab(0);
            } else if c == 'h' {
                app.go_to_tab(1);
            } else if c == 's' {
                app.go_to_tab(2);
            } else if c == 'j' {
                app.next_hist_item();
            } else if c == 'k' {
                app.prev_hist_item();
            }
            false
        },
        Key::Tab => {
            app.next_tab();
            false
        },
        Key::BackTab => {
            app.previous_tab();
            false
        },
        Key::Other => false,
    }
}

} // verus!
