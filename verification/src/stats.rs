//! Per-request statistics: a counter for every `(client, method, path,
//! upstream)` tuple seen on the data plane, never evicted.

use vstd::prelude::*;

verus! {

/// One counter row key at the spec level.
pub struct StatKeyView {
    pub client: Seq<char>,
    pub method: Seq<char>,
    pub path: Seq<char>,
    pub upstream: Seq<char>,
}

/// The request counters, keyed by `(client, method, path, upstream)`.
pub struct Stats {
    counter: Vec<((String, String, String, String), u64)>,
}

/// The mathematical form of the counters: rows in first-seen order.
pub struct StatsView {
    pub rows: Seq<(StatKeyView, u64)>,
}

impl View for Stats {
    type V = StatsView;

    closed spec fn view(&self) -> StatsView {
        StatsView {
            rows: self.counter@.map_values(
                |e: ((String, String, String, String), u64)|
                    (
                        StatKeyView {
                            client: e.0.0@,
                            method: e.0.1@,
                            path: e.0.2@,
                            upstream: e.0.3@,
                        },
                        e.1,
                    ),
            ),
        }
    }
}

/// The position of a key among the rows.
pub open spec fn find_key(rows: Seq<(StatKeyView, u64)>, k: StatKeyView) -> Option<int>
    decreases rows.len(),
{
    if rows.len() == 0 {
        None
    } else if rows[0].0 == k {
        Some(0)
    } else {
        match find_key(rows.drop_first(), k) {
            Some(i) => Some(i + 1),
            None => None,
        }
    }
}

/// No two rows share a key.
pub open spec fn unique_keys(rows: Seq<(StatKeyView, u64)>) -> bool {
    forall|i: int, j: int| 0 <= i < j < rows.len() ==> rows[i].0 != rows[j].0
}

/// What counting one request does to the rows: a known key's count grows by
/// one (stopping at the counter's maximum), an unknown key starts at one at
/// the end.
pub open spec fn spec_count(rows: Seq<(StatKeyView, u64)>, k: StatKeyView) -> Seq<
    (StatKeyView, u64),
> {
    match find_key(rows, k) {
        Some(i) => rows.update(
            i,
            (
                k,
                if rows[i].1 == u64::MAX {
                    u64::MAX
                } else {
                    (rows[i].1 + 1) as u64
                },
            ),
        ),
        None => rows.push((k, 1u64)),
    }
}

/// What `find_key` says of the rows: a found position carries the key and is
/// the first to do so; a miss means no row carries it.
pub proof fn lemma_find_key_props(rows: Seq<(StatKeyView, u64)>, k: StatKeyView)
    ensures
        match find_key(rows, k) {
            Some(i) => 0 <= i < rows.len() && rows[i].0 == k && (forall|j: int|
                0 <= j < i ==> rows[j].0 != k),
            None => forall|j: int| 0 <= j < rows.len() ==> rows[j].0 != k,
        },
    decreases rows.len(),
{
    if rows.len() == 0 {
    } else if rows[0].0 == k {
    } else {
        lemma_find_key_props(rows.drop_first(), k);
        assert(forall|j: int| 1 <= j < rows.len() ==> rows[j] == rows.drop_first()[j - 1]);
    }
}

impl Stats {
    /// Rows carry distinct keys.
    pub open spec fn wf(&self) -> bool {
        unique_keys(self@.rows)
    }

    /// An empty counter table.
    pub fn build() -> (r: Self)
        ensures
            r@.rows.len() == 0,
            r.wf(),
    {
        Stats { counter: Vec::new() }
    }

    /// Counts one proxied request under its `(client, method, path,
    /// upstream)` tuple.
    pub fn count_request(&mut self, client: &str, method: &str, path: &str, upstream: &str)
        requires
            old(self).wf(),
        ensures
            final(self).wf(),
            final(self)@.rows == spec_count(
                old(self)@.rows,
                StatKeyView { client: client@, method: method@, path: path@, upstream: upstream@ },
            ),
    {
        let ghost key = StatKeyView {
            client: client@,
            method: method@,
            path: path@,
            upstream: upstream@,
        };
        let ghost rows = self@.rows;
        proof {
            lemma_find_key_props(rows, key);
        }
        let c_owned = client.to_owned();
        let m_owned = method.to_owned();
        let p_owned = path.to_owned();
        let u_owned = upstream.to_owned();
        let mut i: usize = 0;
        while i < self.counter.len()
            invariant
                i <= self.counter.len(),
                rows == self@.rows,
                rows == old(self)@.rows,
                unique_keys(rows),
                key == (StatKeyView {
                    client: client@,
                    method: method@,
                    path: path@,
                    upstream: upstream@,
                }),
                c_owned@ == client@,
                m_owned@ == method@,
                p_owned@ == path@,
                u_owned@ == upstream@,
                forall|j: int| 0 <= j < i ==> rows[j].0 != key,
            decreases self.counter.len() - i,
        {
            let hit = String::eq(&self.counter[i].0.0, &c_owned) && String::eq(
                &self.counter[i].0.1,
                &m_owned,
            ) && String::eq(&self.counter[i].0.2, &p_owned) && String::eq(
                &self.counter[i].0.3,
                &u_owned,
            );
            proof {
                assert(rows[i as int] == (StatKeyView {
                    client: self.counter@[i as int].0.0@,
                    method: self.counter@[i as int].0.1@,
                    path: self.counter@[i as int].0.2@,
                    upstream: self.counter@[i as int].0.3@,
                }, self.counter@[i as int].1));
            }
            if hit {
                proof {
                    assert(rows[i as int].0 == key);
                    lemma_find_key_props(rows, key);
                    assert(find_key(rows, key) == Some(i as int));
                }
                let old_count = self.counter[i].1;
                let new_count = if old_count == u64::MAX {
                    u64::MAX
                } else {
                    old_count + 1
                };
                let ghost prev = self@.rows;
                self.counter.set(i, ((c_owned, m_owned, p_owned, u_owned), new_count));
                proof {
                    assert(self@.rows =~= prev.update(i as int, (key, new_count)));
                    assert(self@.rows =~= spec_count(rows, key));
                    assert(forall|x: int|
                        0 <= x < self@.rows.len() ==> self@.rows[x].0 == rows[x].0);
                }
                return ;
            }
            proof {
                assert(rows[i as int].0 != key);
            }
            i = i + 1;
        }
        proof {
            lemma_find_key_props(rows, key);
            assert(find_key(rows, key) is None);
        }
        let ghost prev = self@.rows;
        self.counter.push(((c_owned, m_owned, p_owned, u_owned), 1));
        proof {
            assert(self@.rows =~= prev.push((key, 1u64)));
        }
    }

    /// Every row as a `(client, method, path, upstream, count)` tuple, in
    /// first-seen order.
    pub fn get_all(&self) -> (r: Vec<(String, String, String, String, u64)>)
        ensures
            r@.len() == self@.rows.len(),
            forall|j: int|
                0 <= j < r@.len() ==> (r@[j].0@, r@[j].1@, r@[j].2@, r@[j].3@, r@[j].4) == (
                    self@.rows[j].0.client,
                    self@.rows[j].0.method,
                    self@.rows[j].0.path,
                    self@.rows[j].0.upstream,
                    self@.rows[j].1,
                ),
    {
        let mut result: Vec<(String, String, String, String, u64)> = Vec::new();
        let mut i: usize = 0;
        while i < self.counter.len()
            invariant
                i <= self.counter.len(),
                result@.len() == i,
                forall|j: int|
                    0 <= j < i ==> (result@[j].0@, result@[j].1@, result@[j].2@, result@[j].3@,
                    result@[j].4) == (
                        self@.rows[j].0.client,
                        self@.rows[j].0.method,
                        self@.rows[j].0.path,
                        self@.rows[j].0.upstream,
                        self@.rows[j].1,
                    ),
            decreases self.counter.len() - i,
        {
            let e = &self.counter[i];
            result.push((e.0.0.clone(), e.0.1.clone(), e.0.2.clone(), e.0.3.clone(), e.1));
            i = i + 1;
        }
        result
    }
}

} // verus!
