//! Process configuration: the session credential, the destination
//! directory, and the default search filters kept as an association
//! list with unique keys.

use vstd::prelude::*;

verus! {

/// The value stored under `k`, if any.
pub open spec fn lookup_filter(fs: Seq<(String, String)>, k: Seq<char>) -> Option<Seq<char>>
    decreases fs.len(),
{
    if fs.len() == 0 {
        None
    } else if fs[0].0@ == k {
        Some(fs[0].1@)
    } else {
        lookup_filter(fs.drop_first(), k)
    }
}

/// Immutable run configuration, constructed once at startup and only
/// read by the core.
pub struct Config {
    pub cookie: String,
    pub download_directory: String,
    pub filters: Vec<(String, String)>,
}

impl Config {
    /// Well-formed: no two filters share a key.
    pub open spec fn wf(&self) -> bool {
        forall|i: int, j: int|
            0 <= i < j < self.filters@.len() ==> (#[trigger] self.filters@[i]).0@ != (
            #[trigger] self.filters@[j]).0@
    }

    pub open spec fn spec_filter(&self, k: Seq<char>) -> Option<Seq<char>> {
        lookup_filter(self.filters@, k)
    }

    /// An empty configuration, every value still to be supplied.
    pub fn new() -> (c: Config)
        ensures
            c.wf(),
            c.cookie@ == Seq::<char>::empty(),
            c.download_directory@ == Seq::<char>::empty(),
            c.filters@ == Seq::<(String, String)>::empty(),
    {
        Config { cookie: String::new(), download_directory: String::new(), filters: Vec::new() }
    }

    /// Sets or replaces one filter; every other filter keeps its
    /// value, and the keys stay unique.
    pub fn set_filter(&mut self, key: &str, value: &str)
        requires
            old(self).wf(),
        ensures
            final(self).wf(),
            final(self).cookie == old(self).cookie,
            final(self).download_directory == old(self).download_directory,
            final(self).spec_filter(key@) == Some(value@),
            forall|k2: Seq<char>|
                k2 != key@ ==> final(self).spec_filter(k2) == old(self).spec_filter(k2),
    {
        let key_s: String = key.to_owned();
        let value_s: String = value.to_owned();
        let ghost fs0 = self.filters@;
        let mut i: usize = 0;
        while i < self.filters.len()
            invariant
                self.filters@ == fs0,
                fs0 == old(self).filters@,
                self.cookie == old(self).cookie,
                self.download_directory == old(self).download_directory,
                forall|a: int, b: int|
                    0 <= a < b < fs0.len() ==> (#[trigger] fs0[a]).0@ != (#[trigger] fs0[b]).0@,
                i <= fs0.len(),
                forall|j: int| 0 <= j < i ==> (#[trigger] fs0[j]).0@ != key@,
                key_s@ == key@,
                value_s@ == value@,
            decreases fs0.len() - i,
        {
            if self.filters[i].0 == key_s {
                let pair = (key_s, value_s);
                let ghost gpair = pair;
                self.filters.remove(i);
                self.filters.insert(i, pair);
                proof {
                    assert(self.filters@ =~= fs0.update(i as int, gpair));
                    assert forall|j: int|
                        0 <= j < fs0.len() && j != i implies (#[trigger] fs0[j]).0@ != key@ by {
                        if j > i {
                            assert(fs0[i as int].0@ != fs0[j].0@);
                        }
                    }
                    lemma_lookup_update(fs0, i as int, gpair, key@);
                }
                return ;
            }
            i = i + 1;
        }
        let pair = (key_s, value_s);
        let ghost gpair = pair;
        self.filters.push(pair);
        proof {
            lemma_lookup_push(fs0, gpair, key@);
        }
    }
}

/// Updating the pair at `i`, whose key it keeps, gives the new value
/// under that key and changes no other key's lookup.
proof fn lemma_lookup_update(fs: Seq<(String, String)>, i: int, pair: (String, String), k: Seq<char>)
    requires
        0 <= i < fs.len(),
        fs[i].0@ == k,
        pair.0@ == k,
        forall|j: int| 0 <= j < fs.len() && j != i ==> (#[trigger] fs[j]).0@ != k,
    ensures
        lookup_filter(fs.update(i, pair), k) == Some(pair.1@),
        forall|k2: Seq<char>|
            k2 != k ==> lookup_filter(fs.update(i, pair), k2) == lookup_filter(fs, k2),
    decreases fs.len(),
{
    let fs2 = fs.update(i, pair);
    if i == 0 {
        assert(fs2[0] == pair);
        assert(fs2.drop_first() =~= fs.drop_first());
        assert(lookup_filter(fs2, k) == Some(pair.1@));
        assert forall|k2: Seq<char>| k2 != k implies lookup_filter(fs2, k2) == lookup_filter(
            fs,
            k2,
        ) by {
            assert(lookup_filter(fs2, k2) == lookup_filter(fs2.drop_first(), k2));
            assert(lookup_filter(fs, k2) == lookup_filter(fs.drop_first(), k2));
        }
    } else {
        assert(fs2[0] == fs[0]);
        assert(fs2.drop_first() =~= fs.drop_first().update(i - 1, pair));
        lemma_lookup_update(fs.drop_first(), i - 1, pair, k);
        assert(lookup_filter(fs2, k) == lookup_filter(fs2.drop_first(), k));
        assert forall|k2: Seq<char>| k2 != k implies lookup_filter(fs2, k2) == lookup_filter(
            fs,
            k2,
        ) by {
            if fs[0].0@ == k2 {
                assert(lookup_filter(fs2, k2) == Some(fs[0].1@));
                assert(lookup_filter(fs, k2) == Some(fs[0].1@));
            } else {
                assert(lookup_filter(fs2, k2) == lookup_filter(fs2.drop_first(), k2));
                assert(lookup_filter(fs, k2) == lookup_filter(fs.drop_first(), k2));
            }
        }
    }
}

/// Appending a pair leaves every present key's lookup alone and
/// gives the new pair's value exactly where nothing was found.
proof fn lemma_lookup_push(fs: Seq<(String, String)>, pair: (String, String), k: Seq<char>)
    requires
        pair.0@ == k,
        forall|j: int| 0 <= j < fs.len() ==> (#[trigger] fs[j]).0@ != k,
    ensures
        lookup_filter(fs.push(pair), k) == Some(pair.1@),
        forall|k2: Seq<char>|
            k2 != k ==> lookup_filter(fs.push(pair), k2) == lookup_filter(fs, k2),
    decreases fs.len(),
{
    if fs.len() == 0 {
        assert(fs.push(pair)[0] == pair);
        assert(lookup_filter(fs.push(pair), k) == Some(pair.1@));
        assert forall|k2: Seq<char>| k2 != k implies lookup_filter(fs.push(pair), k2)
            == lookup_filter(fs, k2) by {
            assert(fs.push(pair).drop_first() =~= Seq::<(String, String)>::empty());
            assert(lookup_filter(fs.push(pair).drop_first(), k2) is None);
            assert(lookup_filter(fs, k2) is None);
        }
    } else {
        assert(fs.push(pair)[0] == fs[0]);
        assert(fs.push(pair).drop_first() =~= fs.drop_first().push(pair));
        lemma_lookup_push(fs.drop_first(), pair, k);
        assert(lookup_filter(fs.push(pair), k) == lookup_filter(fs.drop_first().push(pair), k));
        assert forall|k2: Seq<char>| k2 != k implies lookup_filter(fs.push(pair), k2)
            == lookup_filter(fs, k2) by {
            if fs[0].0@ == k2 {
                assert(lookup_filter(fs.push(pair), k2) == Some(fs[0].1@));
                assert(lookup_filter(fs, k2) == Some(fs[0].1@));
            } else {
                assert(lookup_filter(fs.push(pair), k2) == lookup_filter(
                    fs.drop_first().push(pair),
                    k2,
                ));
                assert(lookup_filter(fs, k2) == lookup_filter(fs.drop_first(), k2));
            }
        }
    }
}

} // verus!
