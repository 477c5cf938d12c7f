use crate::category::Category;
use crate::classify::first_match;
use crate::matcher::{compiles, Matcher};
use vstd::prelude::*;
use vstd::seq_lib::group_filter_ensures;
use vstd::string::StringExecFns;

verus! {

pub const EMAIL_PATTERN: &'static str = r"\b[A-Za-z0-9._%+-]+@[A-Za-z0-9.-]+\.[A-Z|a-z]{2,}\b";

pub const URL_PATTERN: &'static str =
    r"\b^[-a-zA-Z0-9@:%._\+~#=]{1,256}\.[a-zA-Z0-9()]{1,6}\b(?:[-a-zA-Z0-9()@:%_\+.~#?&//=]*)$\b";

/// An IPv4 dotted quad anywhere in the line.
pub const IP_ADDRESS_PATTERN: &'static str =
    r"\b(?:(?:25[0-5]|2[0-4][0-9]|[01]?[0-9][0-9]?)\.){3}(?:25[0-5]|2[0-4][0-9]|[01]?[0-9][0-9]?)\b";

pub const SRV_DNS_PATTERN: &'static str = r"\b((xn--)?[a-z0-9\w]+(-[a-z0-9]+)*\.)+[a-z]{2}\b";

pub const MAC_ADDRESS_PATTERN: &'static str = r"\b([0-9A-Fa-f]{2}[:-]){5}([0-9A-Fa-f]{2})\b";

/// A catalog as pairs of category and pattern text, in matching order.
pub type Pairs = Seq<(Category, Seq<char>)>;

/// The built-in catalog, in declaration order.
pub open spec fn builtin_pairs() -> Pairs {
    seq![
        (Category::Email, EMAIL_PATTERN@),
        (Category::Url, URL_PATTERN@),
        (Category::IpAddress, IP_ADDRESS_PATTERN@),
        (Category::SrvDns, SRV_DNS_PATTERN@),
        (Category::MacAddress, MAC_ADDRESS_PATTERN@),
    ]
}

/// No category occurs twice.
pub open spec fn distinct(p: Pairs) -> bool {
    forall|i: int, j: int| 0 <= i < j < p.len() ==> p[i].0 != p[j].0
}

pub open spec fn all_compile(p: Pairs) -> bool {
    forall|i: int| 0 <= i < p.len() ==> compiles(#[trigger] p[i].1)
}

pub open spec fn pairs_of(specs: Seq<(Category, String)>) -> Pairs {
    specs.map_values(|e: (Category, String)| (e.0, e.1@))
}

/// Whether the caller asked for at least one category of the catalog.
pub open spec fn any_requested(p: Pairs, requested: Seq<Category>) -> bool {
    exists|i: int| 0 <= i < p.len() && requested.contains(#[trigger] p[i].0)
}

/// An entry is kept by an explicit request when it was asked for and its pattern is not blank.
pub open spec fn wanted(requested: Seq<Category>) -> spec_fn((Category, Seq<char>)) -> bool {
    |e: (Category, Seq<char>)| requested.contains(e.0) && e.1.len() > 0
}

/// The entries in effect for a run: the whole catalog when nothing of it was
/// requested, otherwise the requested entries with a non-blank pattern.
pub open spec fn active_pairs(p: Pairs, requested: Seq<Category>) -> Pairs {
    if any_requested(p, requested) {
        p.filter(wanted(requested))
    } else {
        p
    }
}

/// Why a catalog could not be built.
#[derive(Clone, Copy, Debug, PartialEq, Eq, Structural)]
pub enum CatalogError {
    /// The category was registered more than once.
    DuplicateCategory(Category),
    /// The category's pattern is rejected by the regex engine.
    InvalidPattern(Category),
}

pub struct Entry {
    pub category: Category,
    pub matcher: Matcher,
}

impl Entry {
    pub open spec fn pair(self) -> (Category, Seq<char>) {
        (self.category, self.matcher@)
    }

    fn duplicate(&self) -> (r: Entry)
        ensures
            r.pair() == self.pair(),
    {
        Entry { category: self.category, matcher: self.matcher.duplicate() }
    }
}

pub open spec fn pairs_of_entries(v: Seq<Entry>) -> Pairs {
    v.map_values(|e: Entry| e.pair())
}

proof fn lemma_pairs_push(v: Seq<Entry>, e: Entry)
    ensures
        pairs_of_entries(v.push(e)) == pairs_of_entries(v).push(e.pair()),
{
    assert(pairs_of_entries(v.push(e)) =~= pairs_of_entries(v).push(e.pair()));
}

proof fn lemma_filter_step(p: Pairs, i: int, f: spec_fn((Category, Seq<char>)) -> bool)
    requires
        0 <= i < p.len(),
    ensures
        p.take(i + 1).filter(f) == if f(p[i]) {
            p.take(i).filter(f).push(p[i])
        } else {
            p.take(i).filter(f)
        },
{
    reveal(Seq::filter);
    assert(p.take(i + 1).drop_last() =~= p.take(i));
}

/// The full mapping from category to matcher, fixed once built.
pub struct Catalog {
    entries: Vec<Entry>,
}

/// The part of a catalog that is in effect for one run.
pub struct ActiveSet {
    entries: Vec<Entry>,
}

impl View for Catalog {
    type V = Pairs;

    closed spec fn view(&self) -> Pairs {
        pairs_of_entries(self.entries@)
    }
}

impl View for ActiveSet {
    type V = Pairs;

    closed spec fn view(&self) -> Pairs {
        pairs_of_entries(self.entries@)
    }
}

pub fn contains_category(v: &Vec<Category>, c: Category) -> (r: bool)
    ensures
        r == v@.contains(c),
{
    let mut i: usize = 0;
    while i < v.len()
        invariant
            i <= v@.len(),
            forall|k: int| 0 <= k < i ==> v@[k] != c,
        decreases v@.len() - i,
    {
        if v[i] == c {
            return true;
        }
        i = i + 1;
    }
    false
}

fn categories_of(entries: &Vec<Entry>) -> (r: Vec<Category>)
    ensures
        r@ == pairs_of_entries(entries@).map_values(|e: (Category, Seq<char>)| e.0),
{
    let ghost p = pairs_of_entries(entries@);
    let mut r: Vec<Category> = Vec::new();
    let mut i: usize = 0;
    while i < entries.len()
        invariant
            p == pairs_of_entries(entries@),
            i <= entries@.len(),
            r@ =~= p.take(i as int).map_values(|e: (Category, Seq<char>)| e.0),
        decreases entries@.len() - i,
    {
        r.push(entries[i].category);
        i = i + 1;
    }
    assert(p.take(i as int) =~= p);
    r
}

/// Keeping some entries of a catalog keeps its categories distinct.
proof fn lemma_filter_distinct(p: Pairs, f: spec_fn((Category, Seq<char>)) -> bool)
    requires
        distinct(p),
    ensures
        distinct(p.filter(f)),
    decreases p.len(),
{
    broadcast use group_filter_ensures;

    reveal(Seq::filter);
    if p.len() > 0 {
        let q = p.drop_last();
        assert(distinct(q)) by {
            assert forall|i: int, j: int| 0 <= i < j < q.len() implies q[i].0 != q[j].0 by {
                assert(q[i] == p[i] && q[j] == p[j]);
            }
        }
        lemma_filter_distinct(q, f);
        let fq = q.filter(f);
        if f(p.last()) {
            assert forall|x: int| 0 <= x < fq.len() implies fq[x].0 != p.last().0 by {
                q.lemma_filter_contains_rev(f, fq[x]);
                let y = choose|y: int| 0 <= y < q.len() && q[y] == fq[x];
                assert(p[y] == q[y]);
            }
            let r = fq.push(p.last());
            assert forall|i: int, j: int| 0 <= i < j < r.len() implies r[i].0 != r[j].0 by {
                if j == r.len() - 1 {
                    assert(r[i] == fq[i]);
                } else {
                    assert(r[i] == fq[i] && r[j] == fq[j]);
                }
            }
        }
    }
}

impl Catalog {
    pub open spec fn wf(&self) -> bool {
        distinct(self@)
    }

    /// Builds a catalog from (category, pattern text) pairs, kept in the given order.
    pub fn new(specs: &Vec<(Category, String)>) -> (r: Result<Catalog, CatalogError>)
        ensures
            r is Ok <==> distinct(pairs_of(specs@)) && all_compile(pairs_of(specs@)),
            r matches Ok(c) ==> c.wf() && c@ == pairs_of(specs@),
            r matches Err(CatalogError::DuplicateCategory(c)) ==> !distinct(pairs_of(specs@))
                && exists|i: int, j: int|
                0 <= i < j < specs@.len() && specs@[i].0 == c && specs@[j].0 == c,
            r matches Err(CatalogError::InvalidPattern(c)) ==> distinct(pairs_of(specs@))
                && exists|k: int|
                0 <= k < specs@.len() && specs@[k].0 == c && !compiles(specs@[k].1@) && forall|
                    i: int,
                | 0 <= i < k ==> compiles(#[trigger] specs@[i].1@),
    {
        let ghost p = pairs_of(specs@);
        let n = specs.len();
        assert(p.len() == n);
        let mut i: usize = 0;
        while i < n
            invariant
                n == specs@.len(),
                p == pairs_of(specs@),
                p.len() == n,
                i <= n,
                forall|a: int, b: int| 0 <= a < i && a < b < n ==> specs@[a].0 != specs@[b].0,
            decreases n - i,
        {
            let mut j: usize = i + 1;
            while j < n
                invariant
                    n == specs@.len(),
                    p == pairs_of(specs@),
                    p.len() == n,
                    i < n,
                    i + 1 <= j <= n,
                    forall|b: int| i < b < j ==> specs@[i as int].0 != specs@[b].0,
                decreases n - j,
            {
                if specs[i].0 == specs[j].0 {
                    let c = specs[i].0;
                    assert(p[i as int].0 == specs@[i as int].0);
                    assert(p[j as int].0 == specs@[j as int].0);
                    return Err(CatalogError::DuplicateCategory(c));
                }
                j = j + 1;
            }
            i = i + 1;
        }
        assert(distinct(p));
        let mut entries: Vec<Entry> = Vec::new();
        let mut k: usize = 0;
        while k < n
            invariant
                n == specs@.len(),
                p == pairs_of(specs@),
                p.len() == n,
                distinct(p),
                k <= n,
                entries@.len() == k,
                forall|x: int| 0 <= x < k ==> (#[trigger] entries@[x]).pair() == p[x],
                forall|i: int| 0 <= i < k ==> compiles(#[trigger] specs@[i].1@),
            decreases n - k,
        {
            let c = specs[k].0;
            match Matcher::new(specs[k].1.as_str()) {
                Ok(m) => {
                    let e = Entry { category: c, matcher: m };
                    assert(e.pair() == p[k as int]);
                    entries.push(e);
                },
                Err(_) => {
                    assert(!compiles(p[k as int].1));
                    return Err(CatalogError::InvalidPattern(c));
                },
            }
            k = k + 1;
        }
        assert(pairs_of_entries(entries@) =~= p);
        assert forall|i: int| 0 <= i < p.len() implies compiles(#[trigger] p[i].1) by {
            assert(p[i].1 == specs@[i].1@);
        }
        Ok(Catalog { entries })
    }
}

impl Catalog {
    /// The catalog that ships with the library, in declaration order.
    pub fn builtin() -> (r: Result<Catalog, CatalogError>)
        ensures
            r is Ok <==> all_compile(builtin_pairs()),
            r matches Ok(c) ==> c.wf() && c@ == builtin_pairs(),
            r matches Err(e) ==> e is InvalidPattern,
    {
        let specs = vec![
            (Category::Email, String::from_str(EMAIL_PATTERN)),
            (Category::Url, String::from_str(URL_PATTERN)),
            (Category::IpAddress, String::from_str(IP_ADDRESS_PATTERN)),
            (Category::SrvDns, String::from_str(SRV_DNS_PATTERN)),
            (Category::MacAddress, String::from_str(MAC_ADDRESS_PATTERN)),
        ];
        assert(pairs_of(specs@) =~= builtin_pairs());
        Catalog::new(&specs)
    }

    /// The categories of the catalog, in matching order.
    pub fn categories(&self) -> (r: Vec<Category>)
        ensures
            r@ == self@.map_values(|e: (Category, Seq<char>)| e.0),
    {
        categories_of(&self.entries)
    }

    /// Narrows the catalog to what `requested` asks for. When no category of
    /// the catalog is requested, every entry stays. Otherwise an entry stays
    /// exactly when its category is requested and its pattern is not blank.
    /// Entries keep their catalog order.
    pub fn active_set(&self, requested: &Vec<Category>) -> (r: ActiveSet)
        ensures
            r@ == active_pairs(self@, requested@),
            distinct(self@) ==> distinct(r@),
            !any_requested(self@, requested@) ==> r@ == self@,
            any_requested(self@, requested@) ==> forall|k: int|
                0 <= k < r@.len() ==> requested@.contains(#[trigger] r@[k].0) && r@[k].1.len() > 0
                    && self@.contains(r@[k]),
            any_requested(self@, requested@) ==> forall|k: int|
                0 <= k < self@.len() && requested@.contains(#[trigger] self@[k].0) && self@[k].1.len()
                    > 0 ==> r@.contains(self@[k]),
    {
        let n = self.entries.len();
        let ghost p = self@;
        let ghost f = wanted(requested@);
        assert(p.len() == n);
        let mut any = false;
        let mut i: usize = 0;
        while i < n
            invariant
                n == self.entries@.len(),
                p == self@,
                p.len() == n,
                i <= n,
                any <==> exists|x: int| 0 <= x < i && requested@.contains(#[trigger] p[x].0),
            decreases n - i,
        {
            assert(p[i as int].0 == self.entries@[i as int].category);
            if contains_category(requested, self.entries[i].category) {
                any = true;
            }
            i = i + 1;
        }
        let mut out: Vec<Entry> = Vec::new();
        let mut k: usize = 0;
        while k < n
            invariant
                n == self.entries@.len(),
                p == self@,
                p.len() == n,
                k <= n,
                f == wanted(requested@),
                any == any_requested(p, requested@),
                pairs_of_entries(out@) == if any {
                    p.take(k as int).filter(f)
                } else {
                    p.take(k as int)
                },
            decreases n - k,
        {
            let e = &self.entries[k];
            assert(e.pair() == p[k as int]);
            proof {
                lemma_filter_step(p, k as int, f);
                assert(p.take(k + 1) =~= p.take(k as int).push(p[k as int]));
            }
            if !any || (contains_category(requested, e.category) && !e.matcher.is_blank()) {
                let d = e.duplicate();
                proof {
                    lemma_pairs_push(out@, d);
                }
                out.push(d);
            }
            k = k + 1;
        }
        assert(p.take(n as int) =~= p);
        let r = ActiveSet { entries: out };
        proof {
            broadcast use group_filter_ensures;

            if any {
                if distinct(p) {
                    lemma_filter_distinct(p, f);
                }
                assert forall|k: int| 0 <= k < r@.len() implies requested@.contains(
                    #[trigger] r@[k].0,
                ) && r@[k].1.len() > 0 && p.contains(r@[k]) by {
                    p.lemma_filter_contains_rev(f, r@[k]);
                    assert(f(r@[k]));
                }
                assert forall|k: int|
                    0 <= k < p.len() && requested@.contains(#[trigger] p[k].0) && p[k].1.len()
                        > 0 implies r@.contains(p[k]) by {
                    assert(f(p[k]));
                }
            }
        }
        r
    }
}

/// Builds the built-in catalog and narrows it to the requested categories.
pub fn build_regex_query(requested: &Vec<Category>) -> (r: Result<ActiveSet, CatalogError>)
    ensures
        r is Ok <==> all_compile(builtin_pairs()),
        r matches Ok(a) ==> a@ == active_pairs(builtin_pairs(), requested@),
        r matches Err(e) ==> e is InvalidPattern,
{
    let catalog = Catalog::builtin()?;
    Ok(catalog.active_set(requested))
}

impl ActiveSet {
    /// The category of the first entry, in order, whose pattern occurs in `line`.
    pub fn first_match(&self, line: &str) -> (r: Option<Category>)
        ensures
            r == first_match(self@, line@),
    {
        let n = self.entries.len();
        assert(self@.skip(0) =~= self@);
        let mut i: usize = 0;
        while i < n
            invariant
                n == self.entries@.len(),
                self@.len() == n,
                i <= n,
                first_match(self@, line@) == first_match(self@.skip(i as int), line@),
            decreases n - i,
        {
            let e = &self.entries[i];
            assert(self@.skip(i as int)[0] == e.pair());
            if e.matcher.is_match(line) {
                return Some(e.category);
            }
            assert(self@.skip(i as int).drop_first() =~= self@.skip(i + 1));
            i = i + 1;
        }
        None
    }

    /// The categories in effect, in matching order.
    pub fn categories(&self) -> (r: Vec<Category>)
        ensures
            r@ == self@.map_values(|e: (Category, Seq<char>)| e.0),
    {
        categories_of(&self.entries)
    }
}

} // verus!
