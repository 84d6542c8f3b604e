//! The catalog of countries: fixed for the life of the process, with a
//! stable order of its identifiers.

use vstd::prelude::*;

verus! {

/// Whether an entry stands for the whole world or for one country.
#[derive(Clone, Copy, Debug, PartialEq, Eq)]
pub enum Origin {
    World,
    Country,
}

/// One entry of the catalog, with its descriptive metrics.
#[derive(Clone, Debug)]
pub struct Country {
    pub id: String,
    pub name: String,
    pub origin: Origin,
    pub emissions_year: u32,
    pub emissions_unit: String,
    pub emissions: i64,
    pub employees_year: u32,
    pub employees: u64,
    pub employees_unit: String,
}

/// The identifiers of a sequence of countries, in order.
pub open spec fn ids_of(cs: Seq<Country>) -> Seq<Seq<char>> {
    cs.map_values(|c: Country| c.id@)
}

/// The texts of a sequence of strings.
pub open spec fn string_views(s: Seq<String>) -> Seq<Seq<char>> {
    s.map_values(|x: String| x@)
}

/// The entries that a sequence of references points to.
pub open spec fn deref_all(s: Seq<&Country>) -> Seq<Country> {
    s.map_values(|c: &Country| *c)
}

/// Names the result of `str::to_lowercase`.
pub uninterp spec fn lower_of(s: Seq<char>) -> Seq<char>;

/// Relies on `str::to_lowercase`: its result depends on the characters of
/// its argument alone.
#[verifier::external_body]
fn lowercase(s: &str) -> (r: String)
    ensures
        r@ == lower_of(s@),
{
    s.to_lowercase()
}

/// `needle` occurs in `hay` as a contiguous run.
pub open spec fn contains_sub(hay: Seq<char>, needle: Seq<char>) -> bool {
    exists|i: int|
        0 <= i && i + needle.len() <= hay.len() && #[trigger] hay.subrange(i, i + needle.len())
            == needle
}

/// The entries among `cs` whose lowercased name holds `query`, in order.
pub open spec fn matching(cs: Seq<Country>, query: Seq<char>) -> Seq<Country>
    decreases cs.len(),
{
    if cs.len() == 0 {
        Seq::empty()
    } else {
        let rest = matching(cs.drop_last(), query);
        if contains_sub(lower_of(cs.last().name@), query) {
            rest.push(cs.last())
        } else {
            rest
        }
    }
}

/// The characters of a string, one by one.
fn chars_of(s: &str) -> (r: Vec<char>)
    ensures
        r@ == s@,
{
    let n = s.unicode_len();
    let mut r: Vec<char> = Vec::new();
    let mut i: usize = 0;
    while i < n
        invariant
            n == s@.len(),
            i <= n,
            r@ == s@.take(i as int),
        decreases n - i,
    {
        r.push(s.get_char(i));
        i = i + 1;
        assert(r@ =~= s@.take(i as int));
    }
    assert(s@.take(n as int) =~= s@);
    r
}

/// Whether `needle` occurs in `hay` as a contiguous run.
pub fn has_substring(hay: &str, needle: &str) -> (r: bool)
    ensures
        r == contains_sub(hay@, needle@),
{
    let h = chars_of(hay);
    let n = chars_of(needle);
    if n.len() == 0 {
        assert(hay@.subrange(0, 0 + needle@.len() as int) =~= needle@);
        return true;
    }
    if n.len() > h.len() {
        return false;
    }
    let hl = h.len();
    let last: usize = hl - n.len();
    let mut i: usize = 0;
    while i <= last
        invariant
            hl == h@.len(),
            h@ == hay@,
            n@ == needle@,
            n@.len() > 0,
            last == h@.len() - n@.len(),
            i <= last + 1,
            forall|k: int| 0 <= k < i ==> #[trigger] h@.subrange(k, k + n@.len()) != n@,
        decreases last + 1 - i,
    {
        let mut j: usize = 0;
        let mut same = true;
        while j < n.len()
            invariant
                hl == h@.len(),
                n@.len() > 0,
                h@ == hay@,
                n@ == needle@,
                i <= last,
                last == h@.len() - n@.len(),
                j <= n@.len(),
                same ==> h@.subrange(i as int, i + j) =~= n@.take(j as int),
                !same ==> h@.subrange(i as int, i + n@.len()) != n@,
            ensures
                same ==> j == n@.len(),
                same ==> h@.subrange(i as int, i + j) =~= n@.take(j as int),
                !same ==> h@.subrange(i as int, i + n@.len()) != n@,
            decreases n@.len() - j,
        {
            if h[i + j] != n[j] {
                same = false;
                assert(h@.subrange(i as int, i + n@.len())[j as int] != n@[j as int]);
                break;
            }
            assert(h@.subrange(i as int, i + j + 1) =~= h@.subrange(i as int, i + j).push(h@[i + j]));
            assert(n@.take(j + 1) =~= n@.take(j as int).push(n@[j as int]));
            j = j + 1;
        }
        if same {
            assert(j == n@.len());
            assert(n@.take(j as int) =~= n@);
            assert(hay@.subrange(i as int, i + needle@.len()) == needle@);
            return true;
        }
        i = i + 1;
    }
    false
}

/// The catalog: its entries in a fixed order, with the case-folded name of
/// each beside it.
pub struct Catalog {
    countries: Vec<Country>,
    folded_names: Vec<String>,
}

impl Catalog {
    pub closed spec fn entries(&self) -> Seq<Country> {
        self.countries@
    }

    /// The identifiers, in the catalog's order.
    pub open spec fn ids(&self) -> Seq<Seq<char>> {
        ids_of(self.entries())
    }

    /// Identifiers are unique, and each folded name belongs to the entry
    /// at its index.
    pub closed spec fn wf(&self) -> bool {
        &&& self.ids().no_duplicates()
        &&& self.folded_names@.len() == self.countries@.len()
        &&& forall|i: int|
            0 <= i < self.countries@.len() ==> #[trigger] self.folded_names@[i]@ == lower_of(
                self.countries@[i].name@,
            )
    }

    /// A well-formed catalog has unique identifiers.
    pub proof fn lemma_ids_unique(&self)
        requires
            self.wf(),
        ensures
            self.ids().no_duplicates(),
    {
    }

    /// The catalog of the given entries, or `None` where two share an
    /// identifier.
    pub fn new(countries: Vec<Country>) -> (r: Option<Catalog>)
        ensures
            r is Some <==> ids_of(countries@).no_duplicates(),
            r matches Some(c) ==> c.wf() && c.entries() == countries@,
    {
        let n = countries.len();
        let mut i: usize = 0;
        while i < n
            invariant
                n == countries@.len(),
                i <= n,
                forall|a: int, b: int|
                    0 <= a < b < n && a < i ==> countries@[a].id@ != countries@[b].id@,
            decreases n - i,
        {
            let mut j: usize = i + 1;
            while j < n
                invariant
                    n == countries@.len(),
                    i < n,
                    i < j <= n,
                    forall|a: int, b: int|
                        0 <= a < b < n && a < i ==> countries@[a].id@ != countries@[b].id@,
                    forall|b: int| i < b < j ==> countries@[i as int].id@ != countries@[b].id@,
                decreases n - j,
            {
                if countries[i].id == countries[j].id {
                    assert(ids_of(countries@)[i as int] == ids_of(countries@)[j as int]);
                    return None;
                }
                j = j + 1;
            }
            i = i + 1;
        }
        let mut folded_names: Vec<String> = Vec::new();
        let mut k: usize = 0;
        while k < n
            invariant
                n == countries@.len(),
                k <= n,
                folded_names@.len() == k,
                forall|m: int| 0 <= m < k ==> #[trigger] folded_names@[m]@ == lower_of(
                    countries@[m].name@,
                ),
            decreases n - k,
        {
            folded_names.push(lowercase(countries[k].name.as_str()));
            k = k + 1;
        }
        let c = Catalog { countries, folded_names };
        assert(c.ids().no_duplicates()) by {
            assert forall|a: int, b: int|
                0 <= a < c.ids().len() && 0 <= b < c.ids().len() && a != b implies c.ids()[a]
                != c.ids()[b] by {
                if a < b {
                    assert(countries@[a].id@ != countries@[b].id@);
                } else {
                    assert(countries@[b].id@ != countries@[a].id@);
                }
            }
        }
        Some(c)
    }

    /// Number of entries.
    pub fn len(&self) -> (r: usize)
        ensures
            r == self.entries().len(),
    {
        self.countries.len()
    }

    /// Whether `id` is the identifier of an entry.
    pub fn is_valid(&self, id: &String) -> (r: bool)
        ensures
            r == self.ids().contains(id@),
    {
        match self.index_of(id) {
            Some(_) => true,
            None => false,
        }
    }

    /// The position of the entry with identifier `id`.
    pub fn index_of(&self, id: &String) -> (r: Option<usize>)
        ensures
            r matches Some(i) ==> i < self.entries().len() && self.ids()[i as int] == id@,
            r is None <==> !self.ids().contains(id@),
    {
        let mut i: usize = 0;
        while i < self.countries.len()
            invariant
                i <= self.countries@.len(),
                forall|k: int| 0 <= k < i ==> self.ids()[k] != id@,
            decreases self.countries@.len() - i,
        {
            if self.countries[i].id == *id {
                assert(self.ids()[i as int] == id@);
                return Some(i);
            }
            i = i + 1;
        }
        None
    }

    /// The entry at position `i`.
    pub fn get(&self, i: usize) -> (r: &Country)
        requires
            i < self.entries().len(),
        ensures
            *r == self.entries()[i as int],
    {
        &self.countries[i]
    }

    /// The identifiers, in the catalog's order.
    pub fn ids_vec(&self) -> (r: Vec<String>)
        ensures
            string_views(r@) == self.ids(),
    {
        let mut r: Vec<String> = Vec::new();
        let mut i: usize = 0;
        while i < self.countries.len()
            invariant
                i <= self.countries@.len(),
                r@.len() == i,
                string_views(r@) == self.ids().take(i as int),
            decreases self.countries@.len() - i,
        {
            let ghost before = r@;
            r.push(self.countries[i].id.clone());
            assert(r@ == before.push(self.countries@[i as int].id));
            i = i + 1;
            assert forall|k: int| 0 <= k < i implies #[trigger] string_views(r@)[k]
                == self.ids().take(i as int)[k] by {
                if k < i - 1 {
                    assert(r@[k] == before[k]);
                    assert(string_views(before)[k] == self.ids().take(i - 1)[k]);
                }
            }
            assert(string_views(r@) =~= self.ids().take(i as int));
        }
        assert(self.ids().take(i as int) =~= self.ids());
        r
    }

    /// The entry with identifier `id`.
    pub fn lookup(&self, id: &String) -> (r: Option<&Country>)
        ensures
            r is None <==> !self.ids().contains(id@),
            r matches Some(c) ==> c.id@ == id@ && self.entries().contains(*c),
    {
        match self.index_of(id) {
            Some(i) => Some(&self.countries[i]),
            None => None,
        }
    }

    /// The entries whose case-folded name holds `query` as it is given.
    pub fn search_folded(&self, query: &str) -> (r: Vec<&Country>)
        requires
            self.wf(),
        ensures
            deref_all(r@) == matching(self.entries(), query@),
    {
        let mut r: Vec<&Country> = Vec::new();
        let mut i: usize = 0;
        while i < self.countries.len()
            invariant
                self.wf(),
                i <= self.countries@.len(),
                deref_all(r@) == matching(self.entries().take(i as int), query@),
            decreases self.countries@.len() - i,
        {
            let ghost before = r@;
            assert(self.entries().take(i + 1).drop_last() =~= self.entries().take(i as int));
            assert(self.folded_names@[i as int]@ == lower_of(self.entries()[i as int].name@));
            if has_substring(self.folded_names[i].as_str(), query) {
                r.push(&self.countries[i]);
                assert(deref_all(r@) =~= deref_all(before).push(
                    self.entries()[i as int],
                ));
            }
            i = i + 1;
        }
        assert(self.entries().take(i as int) =~= self.entries());
        r
    }

    /// The entries whose name holds `filter` regardless of case, or every
    /// entry where no filter is given.
    pub fn search(&self, filter: Option<&str>) -> (r: Vec<&Country>)
        requires
            self.wf(),
        ensures
            filter is None ==> deref_all(r@) == self.entries(),
            filter matches Some(q) ==> deref_all(r@) == matching(self.entries(), lower_of(q@)),
    {
        match filter {
            Some(q) => {
                let folded = lowercase(q);
                self.search_folded(folded.as_str())
            },
            None => {
                let mut r: Vec<&Country> = Vec::new();
                let mut i: usize = 0;
                while i < self.countries.len()
                    invariant
                        i <= self.countries@.len(),
                        r@.len() == i,
                        deref_all(r@) == self.entries().take(i as int),
                    decreases self.countries@.len() - i,
                {
                    let ghost before = r@;
                    r.push(&self.countries[i]);
                    i = i + 1;
                    assert forall|k: int| 0 <= k < i implies #[trigger] deref_all(r@)[k] == self.entries().take(i as int)[k] by {
                        if k < i - 1 {
                            assert(r@[k] == before[k]);
                            assert(deref_all(before)[k] == self.entries().take(
                                i - 1,
                            )[k]);
                        }
                    }
                    assert(deref_all(r@) =~= self.entries().take(i as int));
                }
                assert(self.entries().take(i as int) =~= self.entries());
                r
            },
        }
    }
}

} // verus!
