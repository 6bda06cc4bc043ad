//! Plugin text metrics: `"Key: Value unit"` lines turned into a mapping from
//! key to unsigned value.

use crate::text::{
    chars_of, decimal_u64, find_char, first_index, parse_u64, trim, trim_range,
};
use vstd::prelude::*;

verus! {

/// One plugin sample: a mapping from metric name to value, with unique keys.
pub struct PluginSample {
    pub entries: Vec<(String, u64)>,
}

/// The mapping that a list of entries stands for (a later entry wins).
pub open spec fn entries_map(s: Seq<(String, u64)>) -> Map<Seq<char>, u64>
    decreases s.len(),
{
    if s.len() == 0 {
        Map::empty()
    } else {
        entries_map(s.drop_last()).insert(s.last().0@, s.last().1)
    }
}

pub open spec fn keys_unique(s: Seq<(String, u64)>) -> bool {
    forall|i: int, j: int| 0 <= i < j < s.len() ==> s[i].0@ != s[j].0@
}

impl View for PluginSample {
    type V = Map<Seq<char>, u64>;

    open spec fn view(&self) -> Map<Seq<char>, u64> {
        entries_map(self.entries@)
    }
}

proof fn lemma_entries_map(s: Seq<(String, u64)>, k: Seq<char>)
    requires
        keys_unique(s),
    ensures
        entries_map(s).contains_key(k) <==> exists|i: int| 0 <= i < s.len() && s[i].0@ == k,
        forall|i: int| 0 <= i < s.len() && s[i].0@ == k ==> entries_map(s)[k] == s[i].1,
    decreases s.len(),
{
    if s.len() > 0 {
        let d = s.drop_last();
        lemma_entries_map(d, k);
        if exists|i: int| 0 <= i < d.len() && d[i].0@ == k {
            let i = choose|i: int| 0 <= i < d.len() && d[i].0@ == k;
            assert(s[i].0@ == k);
        }
        if exists|i: int| 0 <= i < s.len() && s[i].0@ == k {
            let i = choose|i: int| 0 <= i < s.len() && s[i].0@ == k;
            if i < s.len() - 1 {
                assert(d[i].0@ == k);
            }
        }
        assert forall|i: int| 0 <= i < s.len() && s[i].0@ == k implies entries_map(s)[k]
            == s[i].1 by {
            if i < s.len() - 1 {
                assert(d[i] == s[i]);
            }
        }
    }
}

impl PluginSample {
    pub open spec fn wf(&self) -> bool {
        keys_unique(self.entries@)
    }

    /// An empty sample.
    pub fn new() -> (r: PluginSample)
        ensures
            r.wf(),
            r@ == Map::<Seq<char>, u64>::empty(),
    {
        PluginSample { entries: Vec::new() }
    }

    /// Value stored under `key`.
    pub fn get(&self, key: &str) -> (r: Option<u64>)
        requires
            self.wf(),
        ensures
            r == (if self@.contains_key(key@) {
                Some(self@[key@])
            } else {
                None
            }),
    {
        let k = key.to_owned();
        match self.position(&k) {
            Some(i) => {
                proof {
                    lemma_entries_map(self.entries@, key@);
                }
                Some(self.entries[i].1)
            },
            None => {
                proof {
                    lemma_entries_map(self.entries@, key@);
                }
                None
            },
        }
    }

    fn position(&self, key: &String) -> (r: Option<usize>)
        ensures
            match r {
                Some(i) => i < self.entries@.len() && self.entries@[i as int].0@ == key@,
                None => forall|i: int| 0 <= i < self.entries@.len() ==> self.entries@[i].0@ != key@,
            },
    {
        let mut i: usize = 0;
        while i < self.entries.len()
            invariant
                i <= self.entries@.len(),
                forall|j: int| 0 <= j < i ==> self.entries@[j].0@ != key@,
            decreases self.entries@.len() - i,
        {
            if self.entries[i].0 == *key {
                return Some(i);
            }
            i = i + 1;
        }
        None
    }

    /// Stores `value` under `key`, replacing what was there.
    pub fn insert(&mut self, key: String, value: u64)
        requires
            old(self).wf(),
        ensures
            final(self).wf(),
            final(self)@ == old(self)@.insert(key@, value),
    {
        let ghost s = self.entries@;
        match self.position(&key) {
            Some(i) => {
                self.entries.set(i, (key, value));
                proof {
                    let t = self.entries@;
                    assert forall|a: int, b: int| 0 <= a < b < t.len() implies t[a].0@
                        != t[b].0@ by {
                        if a == i {
                            assert(s[i as int].0@ == t[a].0@);
                        } else if b == i {
                            assert(s[i as int].0@ == t[b].0@);
                        }
                    }
                    let m2 = old(self)@.insert(key@, value);
                    assert forall|k: Seq<char>| #[trigger] entries_map(t).contains_key(k)
                        == m2.contains_key(k) by {
                        lemma_entries_map(s, k);
                        lemma_entries_map(t, k);
                        if exists|j: int| 0 <= j < s.len() && s[j].0@ == k {
                            let j = choose|j: int| 0 <= j < s.len() && s[j].0@ == k;
                            assert(t[j].0@ == k);
                        }
                        if exists|j: int| 0 <= j < t.len() && t[j].0@ == k {
                            let j = choose|j: int| 0 <= j < t.len() && t[j].0@ == k;
                            if j != i {
                                assert(s[j].0@ == k);
                            }
                        }
                        if k == key@ {
                            assert(t[i as int].0@ == k);
                        }
                    }
                    assert forall|k: Seq<char>| m2.contains_key(k) implies #[trigger] entries_map(t)[k]
                        == m2[k] by {
                        lemma_entries_map(s, k);
                        lemma_entries_map(t, k);
                        if exists|j: int| 0 <= j < s.len() && s[j].0@ == k {
                            let j = choose|j: int| 0 <= j < s.len() && s[j].0@ == k;
                            assert(t[j].0@ == k);
                        }
                        if exists|j: int| 0 <= j < t.len() && t[j].0@ == k {
                            let j = choose|j: int| 0 <= j < t.len() && t[j].0@ == k;
                            if j != i {
                                assert(s[j].0@ == k);
                            }
                        }
                        if k == key@ {
                            assert(t[i as int].0@ == k);
                        }
                    }
                    assert(entries_map(t) =~= old(self)@.insert(key@, value));
                }
            },
            None => {
                self.entries.push((key, value));
                proof {
                    let t = self.entries@;
                    assert(t.drop_last() =~= s);
                    assert forall|a: int, b: int| 0 <= a < b < t.len() implies t[a].0@
                        != t[b].0@ by {
                        if b == t.len() - 1 {
                            assert(s[a].0@ != key@);
                        } else {
                            assert(s[a] == t[a] && s[b] == t[b]);
                        }
                    }
                }
            },
        }
    }
}

/// The number a value token stands for: its decimal value, or 0 where it is
/// not a number that fits in `u64`.
pub open spec fn token_value(tok: Seq<char>) -> u64 {
    match decimal_u64(tok) {
        Some(v) => v,
        None => 0,
    }
}

/// The first space-delimited token of `s`.
pub open spec fn first_token(s: Seq<char>) -> Seq<char> {
    s.take(first_index(s, ' ') as int)
}

/// A line with exactly one `:` adds `key -> value`: the key is the trimmed
/// text before the colon, the value the first token of the trimmed text after
/// it. Any other line leaves the mapping as it is.
pub open spec fn parse_line(m: Map<Seq<char>, u64>, line: Seq<char>) -> Map<Seq<char>, u64> {
    let k = first_index(line, ':');
    if k < line.len() && first_index(line.skip(k + 1int), ':') == line.len() - (k + 1) {
        m.insert(trim(line.take(k as int)), token_value(first_token(trim(line.skip(k + 1int)))))
    } else {
        m
    }
}

/// Each `\n`-separated line of `t` folded into `m`, in order.
pub open spec fn parse_text(m: Map<Seq<char>, u64>, t: Seq<char>) -> Map<Seq<char>, u64>
    decreases t.len(),
{
    let k = first_index(t, '\n');
    let m2 = parse_line(m, t.take(k as int));
    if k >= t.len() {
        m2
    } else {
        parse_text(m2, t.skip(k + 1int))
    }
}

/// What the parser makes of `text` at time `timestamps`.
pub open spec fn parsed_sample(text: Seq<char>, timestamps: u64) -> Map<Seq<char>, u64> {
    parse_text(Map::empty(), text).insert("timestamps"@, timestamps)
}

/// Folds the line `cs[from..to]` into the sample.
fn parse_line_into(sample: &mut PluginSample, text: &str, cs: &Vec<char>, from: usize, to: usize)
    requires
        old(sample).wf(),
        cs@ == text@,
        from <= to <= cs@.len(),
    ensures
        final(sample).wf(),
        final(sample)@ == parse_line(old(sample)@, cs@.subrange(from as int, to as int)),
{
    let ghost line = cs@.subrange(from as int, to as int);
    let k = find_char(cs, from, to, ':');
    if k < to {
        let k2 = find_char(cs, k + 1, to, ':');
        proof {
            assert(line.skip(k - from + 1) =~= cs@.subrange(k + 1, to as int));
        }
        if k2 == to {
            let (ka, kb) = trim_range(cs, from, k);
            let key = text.substring_char(ka, kb).to_owned();
            let (va, vb) = trim_range(cs, k + 1, to);
            let te = find_char(cs, va, vb, ' ');
            let tok = text.substring_char(va, te);
            let value = match parse_u64(tok) {
                Some(v) => v,
                None => 0,
            };
            proof {
                assert(line.take(k - from) =~= cs@.subrange(from as int, k as int));
                let tv = cs@.subrange(va as int, vb as int);
                assert(tv.take(te - va) =~= cs@.subrange(va as int, te as int));
                assert(first_token(trim(line.skip(k - from + 1))) == tok@);
            }
            sample.insert(key, value);
        }
    }
}

impl PluginSample {
    /// Parses plugin text: each line `Key: Value unit` with exactly one colon
    /// gives `Key -> Value` (0 where the value is not a number), and
    /// `"timestamps"` is set to `timestamps` last.
    pub fn parse(text: &str, timestamps: u64) -> (r: PluginSample)
        ensures
            r.wf(),
            r@ == parsed_sample(text@, timestamps),
    {
        let cs = chars_of(text);
        let n = cs.len();
        let mut sample = PluginSample::new();
        let mut pos: usize = 0;
        let mut done = false;
        assert(cs@.subrange(0, n as int) =~= cs@);
        while !done
            invariant
                sample.wf(),
                cs@ == text@,
                n == cs@.len(),
                pos <= n,
                done ==> sample@ == parse_text(Map::empty(), text@),
                !done ==> parse_text(sample@, cs@.subrange(pos as int, n as int)) == parse_text(
                    Map::empty(),
                    text@,
                ),
            decreases n - pos + if done {
                0int
            } else {
                1
            },
        {
            let k = find_char(&cs, pos, n, '\n');
            let ghost rest = cs@.subrange(pos as int, n as int);
            parse_line_into(&mut sample, text, &cs, pos, k);
            proof {
                assert(rest.take(k - pos) =~= cs@.subrange(pos as int, k as int));
            }
            if k == n {
                done = true;
            } else {
                proof {
                    assert(rest.skip(k - pos + 1) =~= cs@.subrange(k + 1, n as int));
                }
                pos = k + 1;
            }
        }
        let key = "timestamps".to_owned();
        sample.insert(key, timestamps);
        sample
    }
}

} // verus!
