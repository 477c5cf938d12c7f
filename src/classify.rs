use crate::catalog::{ActiveSet, Pairs};
use crate::category::Category;
use crate::matcher::found;
use vstd::prelude::*;
use vstd::string::StringExecFns;

verus! {

/// The category of the first entry, in order, whose pattern occurs in `line`.
pub open spec fn first_match(p: Pairs, line: Seq<char>) -> Option<Category>
    decreases p.len(),
{
    if p.len() == 0 {
        None
    } else if found(p[0].1, line) {
        Some(p[0].0)
    } else {
        first_match(p.drop_first(), line)
    }
}

/// How a line is classified: an empty line never is, any other line takes
/// the first matching category.
pub open spec fn classification(p: Pairs, line: Seq<char>) -> Option<Category> {
    if line.len() == 0 {
        None
    } else {
        first_match(p, line)
    }
}

/// The reported text for a line of the given category.
pub open spec fn message_of(c: Category, line: Seq<char>) -> Seq<char> {
    c.spec_name() + ": "@ + line
}

/// What one input line yields: nothing for an unreadable or uninteresting
/// line, otherwise its message.
pub open spec fn report(p: Pairs, line: Option<Seq<char>>) -> Option<Seq<char>> {
    match line {
        None => None,
        Some(l) => match classification(p, l) {
            Some(c) => Some(message_of(c, l)),
            None => None,
        },
    }
}

/// The messages of a sequence of input lines, in input order.
pub open spec fn reports(p: Pairs, lines: Seq<Option<Seq<char>>>) -> Seq<Seq<char>> {
    lines.filter_map(|l: Option<Seq<char>>| report(p, l))
}

pub open spec fn line_view(l: Option<String>) -> Option<Seq<char>> {
    match l {
        Some(s) => Some(s@),
        None => None,
    }
}

pub open spec fn lines_view(v: Seq<Option<String>>) -> Seq<Option<Seq<char>>> {
    v.map_values(|l: Option<String>| line_view(l))
}

pub open spec fn views(v: Seq<String>) -> Seq<Seq<char>> {
    v.map_values(|s: String| s@)
}

/// The first match is the earliest entry whose pattern occurs in the line,
/// and there is none exactly when no pattern occurs in it.
pub proof fn first_match_is_earliest(p: Pairs, line: Seq<char>)
    ensures
        first_match(p, line) matches Some(c) ==> exists|k: int|
            0 <= k < p.len() && p[k].0 == c && found(p[k].1, line) && forall|j: int|
                0 <= j < k ==> !found(#[trigger] p[j].1, line),
        first_match(p, line) is None <==> forall|k: int|
            0 <= k < p.len() ==> !found(#[trigger] p[k].1, line),
    decreases p.len(),
{
    if p.len() > 0 {
        let q = p.drop_first();
        first_match_is_earliest(q, line);
        if !found(p[0].1, line) {
            match first_match(q, line) {
                Some(c) => {
                    let k = choose|k: int|
                        0 <= k < q.len() && q[k].0 == c && found(q[k].1, line) && forall|j: int|
                            0 <= j < k ==> !found(#[trigger] q[j].1, line);
                    assert forall|j: int| 0 <= j < k + 1 implies !found(#[trigger] p[j].1, line) by {
                        if j > 0 {
                            assert(p[j] == q[j - 1]);
                        }
                    }
                    assert(p[k + 1] == q[k]);
                },
                None => {
                    assert forall|k: int| 0 <= k < p.len() implies !found(#[trigger] p[k].1, line) by {
                        if k > 0 {
                            assert(p[k] == q[k - 1]);
                        }
                    }
                },
            }
        }
    }
}

/// An empty line yields no message, whatever the active entries.
pub proof fn empty_line_is_silent(p: Pairs, line: Seq<char>)
    requires
        line.len() == 0,
    ensures
        report(p, Some(line)) is None,
{
}

/// A line in which no active pattern occurs yields no message.
pub proof fn unmatched_line_is_silent(p: Pairs, line: Seq<char>)
    requires
        forall|k: int| 0 <= k < p.len() ==> !found(#[trigger] p[k].1, line),
    ensures
        report(p, Some(line)) is None,
{
    first_match_is_earliest(p, line);
}

/// Messages come out in the order of the lines: those of a concatenation are
/// the messages of the first part followed by those of the second.
pub proof fn reports_follow_input_order(
    p: Pairs,
    a: Seq<Option<Seq<char>>>,
    b: Seq<Option<Seq<char>>>,
)
    ensures
        reports(p, a + b) == reports(p, a) + reports(p, b),
    decreases b.len(),
{
    if b.len() == 0 {
        assert(a + b =~= a);
        assert(reports(p, a) + reports(p, b) =~= reports(p, a));
    } else {
        let b0 = b.drop_last();
        reports_follow_input_order(p, a, b0);
        assert((a + b).drop_last() =~= a + b0);
        assert((a + b).last() == b.last());
        match report(p, b.last()) {
            Some(m) => {
                assert(reports(p, a) + reports(p, b) =~= reports(p, a) + reports(p, b0) + seq![m]);
            },
            None => {},
        }
    }
}

/// The messages of a single line: its message if it has one, else none.
pub proof fn reports_of_one(p: Pairs, l: Option<Seq<char>>)
    ensures
        reports(p, seq![l]) == match report(p, l) {
            Some(m) => seq![m],
            None => Seq::<Seq<char>>::empty(),
        },
{
    let one: Seq<Option<Seq<char>>> = seq![l];
    assert(one.drop_last() =~= Seq::<Option<Seq<char>>>::empty());
    reveal_with_fuel(Seq::filter_map, 2);
    assert(reports(p, one) =~= match report(p, l) {
        Some(m) => seq![m],
        None => Seq::<Seq<char>>::empty(),
    });
}

/// Of two reported lines, the earlier one's message comes first, each line
/// gives exactly one message, and the messages of the lines before, between
/// and after them stand in their places.
pub proof fn earlier_line_reported_first(
    p: Pairs,
    ls: Seq<Option<Seq<char>>>,
    i: int,
    j: int,
    mi: Seq<char>,
    mj: Seq<char>,
)
    requires
        0 <= i < j < ls.len(),
        report(p, ls[i]) == Some(mi),
        report(p, ls[j]) == Some(mj),
    ensures
        reports(p, ls) == reports(p, ls.take(i)) + seq![mi] + reports(p, ls.subrange(i + 1, j))
            + seq![mj] + reports(p, ls.skip(j + 1)),
        reports(p, ls)[reports(p, ls.take(i)).len() as int] == mi,
        reports(p, ls)[(reports(p, ls.take(i)).len() + 1 + reports(
            p,
            ls.subrange(i + 1, j),
        ).len()) as int] == mj,
{
    let a = ls.take(i);
    let b = ls.subrange(i + 1, j);
    let c = ls.skip(j + 1);
    let si: Seq<Option<Seq<char>>> = seq![ls[i]];
    let sj: Seq<Option<Seq<char>>> = seq![ls[j]];
    assert(ls =~= a + si + b + sj + c);
    reports_of_one(p, ls[i]);
    reports_of_one(p, ls[j]);
    reports_follow_input_order(p, a + si + b + sj, c);
    reports_follow_input_order(p, a + si + b, sj);
    reports_follow_input_order(p, a + si, b);
    reports_follow_input_order(p, a, si);
    let whole = reports(p, a) + seq![mi] + reports(p, b) + seq![mj] + reports(p, c);
    assert(reports(p, ls) =~= whole);
    assert(whole[reports(p, a).len() as int] == mi);
    assert(whole[(reports(p, a).len() + 1 + reports(p, b).len()) as int] == mj);
}

/// An unreadable line is skipped and the lines after it are still reported.
pub proof fn unreadable_line_is_skipped(
    p: Pairs,
    a: Seq<Option<Seq<char>>>,
    b: Seq<Option<Seq<char>>>,
)
    ensures
        reports(p, a + seq![None] + b) == reports(p, a) + reports(p, b),
{
    let none: Seq<Option<Seq<char>>> = seq![None];
    reports_follow_input_order(p, a + none, b);
    reports_follow_input_order(p, a, none);
    assert(none.drop_last() =~= Seq::<Option<Seq<char>>>::empty());
    assert(none.last() is None);
    reveal_with_fuel(Seq::filter_map, 2);
    assert(reports(p, none) =~= Seq::<Seq<char>>::empty());
    assert(reports(p, a) + reports(p, none) =~= reports(p, a));
}

impl ActiveSet {
    /// Classifies one line: `None` for an empty line or one in which no
    /// active pattern occurs, otherwise the category of the first active
    /// entry whose pattern occurs in it.
    pub fn classify(&self, line: &str) -> (r: Option<Category>)
        ensures
            r == classification(self@, line@),
            r matches Some(c) ==> exists|k: int|
                0 <= k < self@.len() && self@[k].0 == c && found(self@[k].1, line@) && forall|
                    j: int,
                | 0 <= j < k ==> !found(#[trigger] self@[j].1, line@),
            r is None <==> line@.len() == 0 || forall|k: int|
                0 <= k < self@.len() ==> !found(#[trigger] self@[k].1, line@),
    {
        proof {
            first_match_is_earliest(self@, line@);
        }
        if line.is_empty() {
            return None;
        }
        self.first_match(line)
    }
}

/// Forms the message `"<category>: <line>"`.
pub fn message(c: Category, line: &str) -> (r: String)
    ensures
        r@ == message_of(c, line@),
{
    let mut s = String::from_str(c.name());
    s.append(": ");
    s.append(line);
    s
}

/// One line of input and what was found in it.
pub struct Data {
    pub raw_line: String,
    pub is_juicy: bool,
    pub content_type: Option<Category>,
}

impl Default for Data {
    fn default() -> (r: Self)
        ensures
            r.raw_line@ == "0"@,
            !r.is_juicy,
            r.content_type is None,
    {
        Data { raw_line: String::from_str("0"), is_juicy: false, content_type: None }
    }
}

impl Data {
    /// The label of the content type: the category's name, or `"None"` when unset.
    pub open spec fn spec_label(&self) -> Seq<char> {
        match self.content_type {
            Some(c) => c.spec_name(),
            None => "None"@,
        }
    }

    /// A line that has not been classified yet.
    pub fn new(raw_line: String) -> (r: Self)
        ensures
            r.raw_line == raw_line,
            !r.is_juicy,
            r.content_type is None,
    {
        Data { raw_line, is_juicy: false, content_type: None }
    }

    /// The message `"<content type>: <line>"`.
    pub fn to_message(&self) -> (r: String)
        ensures
            r@ == self.spec_label() + ": "@ + self.raw_line@,
    {
        let mut s = match self.content_type {
            Some(c) => String::from_str(c.name()),
            None => String::from_str("None"),
        };
        s.append(": ");
        s.append(self.raw_line.as_str());
        s
    }

    /// Records the first active category whose pattern occurs in the line, and
    /// marks the line as interesting; leaves everything as it was when none does.
    pub fn set_content_type(&mut self, active: &ActiveSet)
        ensures
            final(self).raw_line == old(self).raw_line,
            first_match(active@, old(self).raw_line@) matches Some(c) ==> final(self).content_type
                == Some(c) && final(self).is_juicy,
            first_match(active@, old(self).raw_line@) is None ==> final(self).content_type == old(
                self,
            ).content_type && final(self).is_juicy == old(self).is_juicy,
    {
        if let Some(c) = active.first_match(self.raw_line.as_str()) {
            self.content_type = Some(c);
            self.is_juicy = true;
        }
    }
}

/// Handles one input line: an unreadable, empty or uninteresting line yields
/// nothing, any other line its message.
pub fn handle(line: &Option<String>, active: &ActiveSet) -> (r: Option<String>)
    ensures
        line_view(r) == report(active@, line_view(*line)),
{
    let line = match line {
        Some(l) => l,
        None => {
            return None;
        },
    };
    if line.as_str().is_empty() {
        return None;
    }
    let mut data = Data::new(line.clone());
    data.set_content_type(active);
    if data.is_juicy {
        Some(data.to_message())
    } else {
        None
    }
}

proof fn lemma_views_push(v: Seq<String>, s: String)
    ensures
        views(v.push(s)) == views(v).push(s@),
{
    assert(views(v.push(s)) =~= views(v).push(s@));
}

/// Handles a sequence of input lines and collects the messages in input order.
pub fn scan(lines: &Vec<Option<String>>, active: &ActiveSet) -> (r: Vec<String>)
    ensures
        views(r@) == reports(active@, lines_view(lines@)),
{
    let ghost ls = lines_view(lines@);
    let mut out: Vec<String> = Vec::new();
    let mut i: usize = 0;
    while i < lines.len()
        invariant
            ls == lines_view(lines@),
            ls.len() == lines@.len(),
            i <= lines@.len(),
            views(out@) == reports(active@, ls.take(i as int)),
        decreases lines@.len() - i,
    {
        let m = handle(&lines[i], active);
        proof {
            assert(ls.take(i + 1).drop_last() =~= ls.take(i as int));
            assert(ls.take(i + 1).last() == line_view(lines@[i as int]));
        }
        if let Some(s) = m {
            proof {
                lemma_views_push(out@, s);
            }
            out.push(s);
        }
        i = i + 1;
    }
    assert(ls.take(i as int) =~= ls);
    out
}

} // verus!
