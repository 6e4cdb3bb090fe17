//! Regrouping lines into tagged stanzas. The first columns of a line hold
//! its tag, the rest its value; a line with no tag continues the stanza
//! before it.
use vstd::prelude::*;
use crate::text::{chars_of, non_empty, opt_view, string_views, trimmed, trimmed_part};

verus! {

/// A tag and the values that follow it.
#[derive(Debug, PartialEq, Eq, Clone)]
pub struct Stanza {
    pub tag: Option<String>,
    pub lines: Vec<String>,
}

/// What a `Stanza` stands for.
pub struct StanzaV {
    pub tag: Option<Seq<char>>,
    pub lines: Seq<Seq<char>>,
}

impl View for Stanza {
    type V = StanzaV;

    open spec fn view(&self) -> StanzaV {
        StanzaV { tag: opt_view(self.tag), lines: string_views(self.lines@) }
    }
}

/// Stanzas whose tags stand in the first `tag_columns` columns of a line.
#[derive(Debug, Clone, Copy)]
pub struct LeadingColumns {
    /// How many columns the tag takes.
    pub tag_columns: usize,
    /// Whether lines that repeat the tag of the stanza before them continue it.
    pub merge_tags: bool,
}

/// The tag and the value of a line: a line shorter than the tag columns is
/// all tag.
pub open spec fn tag_value_of(tag_columns: nat, line: Seq<char>) -> (Option<Seq<char>>, Option<Seq<char>>) {
    if line.len() < tag_columns {
        (non_empty(trimmed(line)), None)
    } else {
        (
            non_empty(trimmed(line.subrange(0, tag_columns as int))),
            non_empty(trimmed(line.subrange(tag_columns as int, line.len() as int))),
        )
    }
}

pub open spec fn values_of(v: Option<Seq<char>>) -> Seq<Seq<char>> {
    match v {
        Some(t) => seq![t],
        None => seq![],
    }
}

/// The stanzas of a sequence of tags and values. The first line opens a
/// stanza; after it, a line without a tag continues the open stanza, and so
/// does one with its tag where tags merge; any other line opens a new one.
pub open spec fn group(tvs: Seq<(Option<Seq<char>>, Option<Seq<char>>)>, merge_tags: bool) -> Seq<StanzaV>
    decreases tvs.len(),
{
    if tvs.len() == 0 {
        seq![]
    } else {
        let prev = group(tvs.drop_last(), merge_tags);
        let (t, v) = tvs.last();
        if prev.len() > 0 && (t is None || (merge_tags && t == prev.last().tag)) {
            prev.update(
                prev.len() - 1,
                StanzaV { tag: prev.last().tag, lines: prev.last().lines + values_of(v) },
            )
        } else {
            prev.push(StanzaV { tag: t, lines: values_of(v) })
        }
    }
}

/// The stanzas of `lines`.
pub open spec fn stanzas_of(tag_columns: nat, merge_tags: bool, lines: Seq<Seq<char>>) -> Seq<StanzaV> {
    group(lines.map_values(|l: Seq<char>| tag_value_of(tag_columns, l)), merge_tags)
}

impl LeadingColumns {
    /// The tag and the value of `line`.
    pub fn tag_value(&self, line: &str) -> (r: (Option<String>, Option<String>))
        ensures
            (opt_view(r.0), opt_view(r.1)) == tag_value_of(self.tag_columns as nat, line@),
    {
        let s = chars_of(line);
        proof {
            assert(s@.subrange(0, s@.len() as int) =~= s@);
        }
        if s.len() < self.tag_columns {
            (trimmed_part(&s, 0, s.len()), None)
        } else {
            (trimmed_part(&s, 0, self.tag_columns), trimmed_part(&s, self.tag_columns, s.len()))
        }
    }
}

/// Groups lines into stanzas as they come, one line behind: a stanza is
/// handed out when the line that opens the next one arrives, or at the end.
pub struct StanzaGrouper {
    columns: LeadingColumns,
    open: Option<Stanza>,
    lines: Ghost<Seq<Seq<char>>>,
    emitted: Ghost<Seq<StanzaV>>,
}

/// The tags and values of `lines`.
pub open spec fn tag_values(tag_columns: nat, lines: Seq<Seq<char>>) -> Seq<(Option<Seq<char>>, Option<Seq<char>>)> {
    lines.map_values(|l: Seq<char>| tag_value_of(tag_columns, l))
}

fn same_tag(a: &Option<String>, b: &Option<String>) -> (r: bool)
    ensures
        r == (opt_view(*a) == opt_view(*b)),
{
    match (a, b) {
        (Some(x), Some(y)) => *x == *y,
        (None, None) => true,
        _ => false,
    }
}

impl StanzaGrouper {
    pub closed spec fn columns(&self) -> LeadingColumns {
        self.columns
    }

    /// The lines pushed so far.
    pub closed spec fn lines(&self) -> Seq<Seq<char>> {
        self.lines@
    }

    /// The stanzas handed out so far.
    pub closed spec fn emitted(&self) -> Seq<StanzaV> {
        self.emitted@
    }

    pub closed spec fn wf(&self) -> bool {
        let all = group(tag_values(self.columns.tag_columns as nat, self.lines@), self.columns.merge_tags);
        match self.open {
            Some(st) => all == self.emitted@.push(st@),
            None => self.lines@.len() == 0 && self.emitted@.len() == 0,
        }
    }

    /// Takes the next line; gives the stanza that it closes, if any.
    pub fn push_line(&mut self, line: &str) -> (r: Option<Stanza>)
        requires
            old(self).wf(),
        ensures
            final(self).wf(),
            final(self).columns() == old(self).columns(),
            final(self).lines() == old(self).lines().push(line@),
            match r {
                Some(st) => final(self).emitted() == old(self).emitted().push(st@),
                None => final(self).emitted() == old(self).emitted(),
            },
    {
        let (t, v) = self.columns.tag_value(line);
        let ghost cols = self.columns.tag_columns as nat;
        let ghost old_lines = self.lines@;
        let ghost tv = tag_value_of(cols, line@);
        proof {
            self.lines = Ghost(self.lines@.push(line@));
            assert(tag_values(cols, self.lines@).drop_last() =~= tag_values(cols, old_lines));
            assert(tag_values(cols, self.lines@).last() == tv);
        }
        let mut fresh: Vec<String> = Vec::new();
        match v {
            Some(x) => fresh.push(x),
            None => {},
        }
        assert(string_views(fresh@) =~= values_of(tv.1));
        let cur = self.open.take();
        match cur {
            None => {
                let st = Stanza { tag: t, lines: fresh };
                proof {
                    assert(string_views(st.lines@) =~= values_of(tv.1));
                    assert(tag_values(cols, old_lines) =~= Seq::empty());
                    assert(group(tag_values(cols, old_lines), self.columns.merge_tags) =~= Seq::empty());
                    assert(self.emitted@.push(st@) =~= seq![st@]);
                }
                self.open = Some(st);
                None
            },
            Some(mut st) => {
                if t.is_none() || (self.columns.merge_tags && same_tag(&t, &st.tag)) {
                    let ghost before = st@;
                    st.lines.append(&mut fresh);
                    proof {
                        assert(string_views(st.lines@) =~= before.lines + values_of(tv.1));
                        let prev = group(tag_values(cols, old_lines), self.columns.merge_tags);
                        assert(prev.last() == before);
                        assert(tv.0 is None || (self.columns.merge_tags && tv.0 == prev.last().tag));
                        assert(prev.update(prev.len() - 1, st@) =~= self.emitted@.push(st@));
                    }
                    self.open = Some(st);
                    None
                } else {
                    let next = Stanza { tag: t, lines: fresh };
                    proof {
                        assert(string_views(next.lines@) =~= values_of(tv.1));
                        self.emitted = Ghost(self.emitted@.push(st@));
                    }
                    self.open = Some(next);
                    Some(st)
                }
            },
        }
    }

    /// Ends the input; gives the stanza still open, if any.
    pub fn finish(self) -> (r: Option<Stanza>)
        requires
            self.wf(),
        ensures
            match r {
                Some(st) => self.emitted().push(st@) == stanzas_of(
                    self.columns().tag_columns as nat,
                    self.columns().merge_tags,
                    self.lines(),
                ),
                None => self.emitted() == stanzas_of(
                    self.columns().tag_columns as nat,
                    self.columns().merge_tags,
                    self.lines(),
                ),
            },
    {
        self.open
    }
}

impl LeadingColumns {
    /// A grouper with no line pushed yet.
    pub fn grouper(&self) -> (g: StanzaGrouper)
        ensures
            g.wf(),
            g.columns() == *self,
            g.lines() == Seq::<Seq<char>>::empty(),
            g.emitted() == Seq::<StanzaV>::empty(),
    {
        StanzaGrouper { columns: *self, open: None, lines: Ghost(Seq::empty()), emitted: Ghost(Seq::empty()) }
    }

    /// The stanzas of `lines`, in order.
    pub fn stanzas(&self, lines: &Vec<&str>) -> (r: Vec<Stanza>)
        ensures
            r@.len() == stanzas_of(self.tag_columns as nat, self.merge_tags, lines@.map_values(|l: &str| l@)).len(),
            forall|i: int|
                0 <= i < r@.len() ==> #[trigger] r@[i]@ == stanzas_of(
                    self.tag_columns as nat,
                    self.merge_tags,
                    lines@.map_values(|l: &str| l@),
                )[i],
    {
        let mut g = self.grouper();
        let mut r: Vec<Stanza> = Vec::new();
        let mut k: usize = 0;
        while k < lines.len()
            invariant
                k <= lines@.len(),
                g.wf(),
                g.columns() == *self,
                g.lines() == lines@.map_values(|l: &str| l@).subrange(0, k as int),
                r@.len() == g.emitted().len(),
                forall|i: int| 0 <= i < r@.len() ==> #[trigger] r@[i]@ == g.emitted()[i],
            decreases lines@.len() - k,
        {
            let ghost before = g.lines();
            if let Some(st) = g.push_line(lines[k]) {
                r.push(st);
            }
            k = k + 1;
            assert(g.lines() =~= lines@.map_values(|l: &str| l@).subrange(0, k as int));
        }
        assert(g.lines() =~= lines@.map_values(|l: &str| l@));
        if let Some(st) = g.finish() {
            r.push(st);
        }
        r
    }
}

} // verus!
