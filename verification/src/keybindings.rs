//! Keybinding configuration helpers.
//!
//! A raw keybinding set maps a key name to the list of operation names
//! bound to it. Sets from several sources (defaults, a configuration file,
//! the command line) are merged with [`RawKeybindings::merge`], the newer
//! source winning on a key bound twice. [`parse_str`] splits one textual
//! binding of the form `KEY:OP[+OP]*` into its key and operation names.

use vstd::prelude::*;

verus! {

/// Why a textual keybinding cannot be parsed.
#[derive(Debug, PartialEq)]
pub enum ParseError {
    /// The text has no `:` separating the key from its operations.
    InvalidFormat,
}

/// The character sequences carried by a list of strings.
pub open spec fn strings_view(v: Seq<String>) -> Seq<Seq<char>> {
    v.map_values(|s: String| s@)
}

/// The key-to-operations map described by a sequence of pairs, a later
/// pair overriding an earlier one with the same key.
pub open spec fn pairs_map(s: Seq<(String, Vec<String>)>) -> Map<Seq<char>, Seq<Seq<char>>>
    decreases s.len(),
{
    if s.len() == 0 {
        Map::empty()
    } else {
        pairs_map(s.drop_last()).insert(s.last().0@, strings_view(s.last().1@))
    }
}

/// Keybindings as read from a configuration source: key names, each with
/// the names of the operations bound to it.
pub struct RawKeybindings(Vec<(String, Vec<String>)>);

impl RawKeybindings {
    /// The stored pairs.
    pub closed spec fn pairs(&self) -> Seq<(String, Vec<String>)> {
        self.0@
    }

    /// Each key is bound at most once.
    pub open spec fn wf(&self) -> bool {
        forall|i: int, j: int|
            0 <= i < j < self.pairs().len() ==> self.pairs()[i].0@ != self.pairs()[j].0@
    }

    /// The key-to-operations map this set denotes.
    pub open spec fn as_map(&self) -> Map<Seq<char>, Seq<Seq<char>>> {
        pairs_map(self.pairs())
    }

    /// An empty keybinding set.
    pub fn empty() -> (r: RawKeybindings)
        ensures
            r.wf(),
            r.as_map() == Map::<Seq<char>, Seq<Seq<char>>>::empty(),
    {
        RawKeybindings(Vec::new())
    }

    /// Binds `key` to `ops`, replacing what the key was bound to before.
    pub fn insert(&mut self, key: String, ops: Vec<String>)
        requires
            old(self).wf(),
        ensures
            final(self).wf(),
            final(self).as_map() == old(self).as_map().insert(key@, strings_view(ops@)),
    {
        let n = self.0.len();
        let mut i: usize = 0;
        #[verifier::loop_isolation(false)]
        while i < n
            invariant
                i <= n,
                self == old(self),
                forall|j: int| 0 <= j < i ==> self.pairs()[j].0@ != key@,
            decreases n - i,
        {
            if string_eq(&self.0[i].0, &key) {
                let ghost before = self.pairs();
                self.0[i] = (key, ops);
                proof {
                    assert(before[i as int].0@ == key@);
                    assert(self.pairs() == before.update(i as int, self.pairs()[i as int]));
                    lemma_pairs_map_update(before, i as int, self.pairs()[i as int]);
                    assert forall|k: int| 0 <= k < self.pairs().len() implies self.pairs()[k].0@
                        == before[k].0@ by {}
                }
                return ;
            }
            i = i + 1;
        }
        let ghost before = self.pairs();
        self.0.push((key, ops));
        proof {
            assert(self.pairs().drop_last() =~= before);
            assert(self.pairs().last() == (key, ops));
        }
    }

    /// Builds a keybinding set from a list of pairs, a later pair
    /// overriding an earlier one with the same key.
    pub fn from_pairs(pairs: Vec<(String, Vec<String>)>) -> (r: RawKeybindings)
        ensures
            r.wf(),
            r.as_map() == pairs_map(pairs@),
    {
        let ghost all = pairs@;
        let mut pairs = pairs;
        let mut r = RawKeybindings::empty();
        let ghost mut done: int = 0;
        #[verifier::loop_isolation(false)]
        while pairs.len() > 0
            invariant
                0 <= done <= all.len(),
                done == all.len() - pairs@.len(),
                pairs@ =~= all.skip(done),
                r.wf(),
                r.as_map() == pairs_map(all.take(done)),
            decreases pairs@.len(),
        {
            proof {
                assert(all.skip(done).len() == all.len() - done);
                assert(0 <= done < all.len());
            }
            let (key, ops) = pairs.remove(0);
            proof {
                assert(all.skip(done)[0] == all[done]);
                assert(all[done] == (key, ops));
            }
            r.insert(key, ops);
            proof {
                assert(all.take(done + 1).drop_last() =~= all.take(done));
                assert(all.take(done + 1).last() == all[done]);
                done = done + 1;
                assert(pairs@ =~= all.skip(done));
            }
        }
        proof {
            assert(all.take(done) =~= all);
        }
        r
    }

    /// Merges a newer keybinding set over an older one: a key bound in
    /// both keeps the newer binding; a missing side passes the other
    /// through unchanged.
    pub fn merge(new_opt: Option<Self>, old_opt: Option<Self>) -> (r: Option<Self>)
        requires
            new_opt matches Some(n) ==> n.wf(),
            old_opt matches Some(o) ==> o.wf(),
        ensures
            new_opt is None ==> r == old_opt,
            new_opt is Some && old_opt is None ==> r == new_opt,
            new_opt matches Some(n) ==> (old_opt matches Some(o) ==> (r matches Some(m) && m.wf()
                && m.as_map() == o.as_map().union_prefer_right(n.as_map()))),
    {
        match new_opt {
            None => old_opt,
            Some(new) => {
                match old_opt {
                    None => Some(new),
                    Some(prior) => {
                        let ghost new_pairs = new.pairs();
                        let mut rest = new.0;
                        let mut merged = prior;
                        let ghost mut done: int = 0;
                        #[verifier::loop_isolation(false)]
                        while rest.len() > 0
                            invariant
                                0 <= done <= new_pairs.len(),
                                done == new_pairs.len() - rest@.len(),
                                rest@ =~= new_pairs.skip(done),
                                merged.wf(),
                                merged.as_map() == pairs_map(prior.pairs()).union_prefer_right(
                                    pairs_map(new_pairs.take(done)),
                                ),
                            decreases rest@.len(),
                        {
                            proof {
                                assert(new_pairs.skip(done).len() == new_pairs.len() - done);
                                assert(0 <= done < new_pairs.len());
                            }
                            let (key, ops) = rest.remove(0);
                            proof {
                                assert(new_pairs.skip(done)[0] == new_pairs[done]);
                                assert(new_pairs[done] == (key, ops));
                                lemma_union_insert(
                                    pairs_map(prior.pairs()),
                                    pairs_map(new_pairs.take(done)),
                                    key@,
                                    strings_view(ops@),
                                );
                            }
                            merged.insert(key, ops);
                            proof {
                                assert(new_pairs.take(done + 1).drop_last() =~= new_pairs.take(
                                    done,
                                ));
                                assert(new_pairs.take(done + 1).last() == new_pairs[done]);
                                done = done + 1;
                                assert(rest@ =~= new_pairs.skip(done));
                            }
                        }
                        proof {
                            assert(new_pairs.take(done) =~= new_pairs);
                            assert(pairs_map(prior.pairs()).union_prefer_right(pairs_map(new_pairs))
                                =~= prior.as_map().union_prefer_right(new.as_map()));
                        }
                        Some(merged)
                    },
                }
            },
        }
    }

    /// The operation names bound to `key`, when the key is bound.
    pub fn get(&self, key: &String) -> (r: Option<&Vec<String>>)
        requires
            self.wf(),
        ensures
            r is Some <==> self.as_map().contains_key(key@),
            r matches Some(ops) ==> self.as_map()[key@] == strings_view(ops@),
    {
        let n = self.0.len();
        let mut i: usize = 0;
        #[verifier::loop_isolation(false)]
        while i < n
            invariant
                i <= n,
                n == self.pairs().len(),
                forall|j: int| 0 <= j < i ==> self.pairs()[j].0@ != key@,
            decreases n - i,
        {
            if string_eq(&self.0[i].0, key) {
                proof {
                    lemma_pairs_map_get(self.pairs(), i as int);
                }
                return Some(&self.0[i].1);
            }
            i = i + 1;
        }
        proof {
            lemma_pairs_map_no_key(self.pairs(), key@);
        }
        None
    }
}

/// Two strings are equal exactly when their characters are.
fn string_eq(a: &String, b: &String) -> (r: bool)
    ensures
        r <==> a@ == b@,
{
    a.eq(b)
}

/// Replacing the pair at `k` by one with the same key changes the denoted
/// map as one insertion, when keys are unique.
proof fn lemma_pairs_map_update(s: Seq<(String, Vec<String>)>, k: int, p: (String, Vec<String>))
    requires
        0 <= k < s.len(),
        p.0@ == s[k].0@,
        forall|i: int, j: int| 0 <= i < j < s.len() ==> s[i].0@ != s[j].0@,
    ensures
        pairs_map(s.update(k, p)) == pairs_map(s).insert(p.0@, strings_view(p.1@)),
    decreases s.len(),
{
    let t = s.update(k, p);
    if k == s.len() - 1 {
        assert(t.drop_last() =~= s.drop_last());
        assert(pairs_map(t) =~= pairs_map(s).insert(p.0@, strings_view(p.1@)));
    } else {
        assert(t.drop_last() =~= s.drop_last().update(k, p));
        lemma_pairs_map_update(s.drop_last(), k, p);
        assert(s.last().0@ != p.0@);
        assert(pairs_map(t) =~= pairs_map(s).insert(p.0@, strings_view(p.1@)));
    }
}

/// When every earlier key differs from the key at `k`, looking the key up
/// in the denoted map yields the operations at `k`.
proof fn lemma_pairs_map_get(s: Seq<(String, Vec<String>)>, k: int)
    requires
        0 <= k < s.len(),
        forall|i: int, j: int| 0 <= i < j < s.len() ==> s[i].0@ != s[j].0@,
    ensures
        pairs_map(s).contains_key(s[k].0@),
        pairs_map(s)[s[k].0@] == strings_view(s[k].1@),
    decreases s.len(),
{
    if k < s.len() - 1 {
        lemma_pairs_map_get(s.drop_last(), k);
        assert(s.last().0@ != s[k].0@);
    }
}

/// A key bound by no pair is absent from the denoted map.
proof fn lemma_pairs_map_no_key(s: Seq<(String, Vec<String>)>, key: Seq<char>)
    requires
        forall|i: int| 0 <= i < s.len() ==> s[i].0@ != key,
    ensures
        !pairs_map(s).contains_key(key),
    decreases s.len(),
{
    if s.len() > 0 {
        lemma_pairs_map_no_key(s.drop_last(), key);
    }
}

/// Inserting on the right side of a union prefering the right side is an
/// insertion into the union.
proof fn lemma_union_insert(
    m: Map<Seq<char>, Seq<Seq<char>>>,
    n: Map<Seq<char>, Seq<Seq<char>>>,
    key: Seq<char>,
    val: Seq<Seq<char>>,
)
    ensures
        m.union_prefer_right(n.insert(key, val)) == m.union_prefer_right(n).insert(key, val),
{
    assert(m.union_prefer_right(n.insert(key, val)) =~= m.union_prefer_right(n).insert(key, val));
}

/// The Unicode whitespace characters, those that trimming an operation
/// name removes.
pub open spec fn is_space(c: char) -> bool {
    ||| c == ' '
    ||| c == '\t'
    ||| c == '\n'
    ||| c == '\r'
    ||| c == '\u{000b}'
    ||| c == '\u{000c}'
    ||| c == '\u{0085}'
    ||| c == '\u{00a0}'
    ||| c == '\u{1680}'
    ||| c == '\u{2000}'
    ||| c == '\u{2001}'
    ||| c == '\u{2002}'
    ||| c == '\u{2003}'
    ||| c == '\u{2004}'
    ||| c == '\u{2005}'
    ||| c == '\u{2006}'
    ||| c == '\u{2007}'
    ||| c == '\u{2008}'
    ||| c == '\u{2009}'
    ||| c == '\u{200a}'
    ||| c == '\u{2028}'
    ||| c == '\u{2029}'
    ||| c == '\u{202f}'
    ||| c == '\u{205f}'
    ||| c == '\u{3000}'
}

/// Whether `c` is whitespace, by the same list as [`is_space`].
fn is_space_char(c: char) -> (r: bool)
    ensures
        r == is_space(c),
{
    c == ' ' || c == '\t' || c == '\n' || c == '\r' || c == '\u{000b}' || c == '\u{000c}'
        || c == '\u{0085}' || c == '\u{00a0}' || c == '\u{1680}' || c == '\u{2000}'
        || c == '\u{2001}' || c == '\u{2002}' || c == '\u{2003}' || c == '\u{2004}'
        || c == '\u{2005}' || c == '\u{2006}' || c == '\u{2007}' || c == '\u{2008}'
        || c == '\u{2009}' || c == '\u{200a}' || c == '\u{2028}' || c == '\u{2029}'
        || c == '\u{202f}' || c == '\u{205f}' || c == '\u{3000}'
}

/// `k` is the position of the first colon in `cs`.
pub open spec fn is_first_colon(cs: Seq<char>, k: int) -> bool {
    &&& 0 <= k < cs.len()
    &&& cs[k] == ':'
    &&& forall|j: int| 0 <= j < k ==> cs[j] != ':'
}

/// The `+`-separated segments of `cs`, scanned left to right: a `+` ends
/// the current segment and starts the next, so there is always one more
/// segment than there are separators.
pub open spec fn split_plus(cs: Seq<char>) -> Seq<Seq<char>>
    decreases cs.len(),
{
    if cs.len() == 0 {
        seq![Seq::<char>::empty()]
    } else {
        let prev = split_plus(cs.drop_last());
        if cs.last() == '+' {
            prev.push(Seq::<char>::empty())
        } else {
            prev.update(prev.len() - 1, prev.last().push(cs.last()))
        }
    }
}

/// A split always has at least one segment.
proof fn lemma_split_plus_len(cs: Seq<char>)
    ensures
        split_plus(cs).len() >= 1,
    decreases cs.len(),
{
    if cs.len() > 0 {
        lemma_split_plus_len(cs.drop_last());
    }
}

/// Scanning one more character extends the split: a `+` closes the open
/// segment, any other character grows it.
proof fn lemma_split_plus_push(cs: Seq<char>, c: char)
    ensures
        c == '+' ==> split_plus(cs.push(c)) == split_plus(cs).push(Seq::<char>::empty()),
        c != '+' ==> split_plus(cs.push(c)) == split_plus(cs).update(
            split_plus(cs).len() - 1,
            split_plus(cs).last().push(c),
        ),
{
    lemma_split_plus_len(cs);
    assert(cs.push(c).drop_last() =~= cs);
    assert(cs.push(c).last() == c);
    assert(cs.push(c).len() == cs.len() + 1);
}

/// `a` and `b` delimit `seg` minus its leading and trailing whitespace.
pub open spec fn trim_bounds(seg: Seq<char>, a: int, b: int) -> bool {
    &&& 0 <= a <= b <= seg.len()
    &&& (forall|j: int| 0 <= j < a ==> is_space(seg[j]))
    &&& (forall|j: int| b <= j < seg.len() ==> is_space(seg[j]))
    &&& (a < b ==> !is_space(seg[a]) && !is_space(seg[b - 1]))
}

/// `t` is `seg` with its leading and trailing whitespace removed.
pub open spec fn is_trimmed_of(seg: Seq<char>, t: Seq<char>) -> bool {
    exists|a: int, b: int| #![auto] trim_bounds(seg, a, b) && t == seg.subrange(a, b)
}

/// `ops` are the `+`-separated segments of `rest`, in order, each trimmed
/// of surrounding whitespace.
pub open spec fn ops_split_of(rest: Seq<char>, ops: Seq<String>) -> bool {
    &&& ops.len() == split_plus(rest).len()
    &&& forall|i: int| 0 <= i < ops.len() ==> is_trimmed_of(split_plus(rest)[i], ops[i]@)
}

/// What a successful parse of `cs` with its first colon at `k` returns.
pub open spec fn parse_ok_at(cs: Seq<char>, k: int, key: Seq<char>, ops: Seq<String>) -> bool {
    &&& is_first_colon(cs, k)
    &&& key == cs.take(k)
    &&& ops_split_of(cs.skip(k + 1), ops)
}

/// The text of `s` between `a0` and `b0`, with surrounding whitespace
/// removed.
fn trim_range(s: &str, a0: usize, b0: usize) -> (r: String)
    requires
        a0 <= b0 <= s@.len(),
    ensures
        is_trimmed_of(s@.subrange(a0 as int, b0 as int), r@),
{
    let mut a = a0;
    let mut b = b0;
    #[verifier::loop_isolation(false)]
    while a < b && is_space_char(s.get_char(a))
        invariant
            a0 <= a <= b,
            b == b0,
            forall|j: int| a0 <= j < a ==> is_space(s@[j]),
        decreases b - a,
    {
        a = a + 1;
    }
    #[verifier::loop_isolation(false)]
    while b > a && is_space_char(s.get_char(b - 1))
        invariant
            a <= b <= b0,
            forall|j: int| b <= j < b0 ==> is_space(s@[j]),
        decreases b - a,
    {
        b = b - 1;
    }
    let r = s.substring_char(a, b).to_owned();
    proof {
        let seg = s@.subrange(a0 as int, b0 as int);
        let ta = a - a0;
        let tb = b - a0;
        assert forall|j: int| 0 <= j < ta implies is_space(seg[j]) by {
            assert(seg[j] == s@[a0 + j]);
        }
        assert forall|j: int| tb <= j < seg.len() implies is_space(seg[j]) by {
            assert(seg[j] == s@[a0 + j]);
        }
        if a < b {
            assert(seg[ta] == s@[a as int]);
            assert(seg[tb - 1] == s@[b - 1]);
        }
        assert(trim_bounds(seg, ta, tb));
        assert(r@ =~= seg.subrange(ta, tb));
    }
    r
}

/// Splits one textual keybinding of the form `KEY:OP[+OP]*` at its first
/// colon into the key name and the operation names, the operations being
/// the `+`-separated pieces after the colon with surrounding whitespace
/// removed. Text without a colon is rejected.
pub fn parse_str(s: &str) -> (r: Result<(String, Vec<String>), ParseError>)
    ensures
        r is Ok <==> exists|k: int| is_first_colon(s@, k),
        r matches Ok(p) ==> exists|k: int| parse_ok_at(s@, k, p.0@, p.1@),
        r is Err ==> r == Err::<(String, Vec<String>), ParseError>(ParseError::InvalidFormat),
{
    let n = s.unicode_len();
    let mut k: usize = 0;
    #[verifier::loop_isolation(false)]
    while k < n && s.get_char(k) != ':'
        invariant
            0 <= k <= n,
            forall|j: int| 0 <= j < k ==> s@[j] != ':',
        decreases n - k,
    {
        k = k + 1;
    }
    if k == n {
        return Err(ParseError::InvalidFormat);
    }
    assert(is_first_colon(s@, k as int));
    let key = s.substring_char(0, k).to_owned();
    proof {
        assert(key@ =~= s@.take(k as int));
    }
    let ghost rest = s@.skip(k + 1);
    let mut ops: Vec<String> = Vec::new();
    let mut seg_start: usize = k + 1;
    let mut p: usize = k + 1;
    proof {
        assert(rest.take(0) =~= Seq::<char>::empty());
        assert(split_plus(rest.take(0)).last() =~= s@.subrange(k + 1, k + 1));
    }
    #[verifier::loop_isolation(false)]
    while p < n
        invariant
            k + 1 <= seg_start <= p <= n,
            split_plus(rest.take(p - (k + 1))).len() == ops@.len() + 1,
            split_plus(rest.take(p - (k + 1))).last() == s@.subrange(seg_start as int, p as int),
            forall|i: int|
                0 <= i < ops@.len() ==> is_trimmed_of(
                    split_plus(rest.take(p - (k + 1)))[i],
                    ops@[i]@,
                ),
        decreases n - p,
    {
        let ghost prefix = rest.take(p - (k + 1));
        let ghost sp = split_plus(prefix);
        let c = s.get_char(p);
        proof {
            assert(rest[p - (k + 1)] == s@[p as int]);
            assert(rest.take(p + 1 - (k + 1)) =~= prefix.push(s@[p as int]));
            lemma_split_plus_push(prefix, s@[p as int]);
        }
        if c == '+' {
            let t = trim_range(s, seg_start, p);
            ops.push(t);
            seg_start = p + 1;
            proof {
                assert(split_plus(rest.take(p + 1 - (k + 1))) == sp.push(Seq::<char>::empty()));
                assert(split_plus(rest.take(p + 1 - (k + 1))).last() =~= s@.subrange(
                    p + 1,
                    p + 1,
                ));
            }
        } else {
            proof {
                assert(split_plus(rest.take(p + 1 - (k + 1))) == sp.update(
                    sp.len() - 1,
                    sp.last().push(s@[p as int]),
                ));
                assert(sp.last().push(s@[p as int]) =~= s@.subrange(seg_start as int, p + 1));
            }
        }
        p = p + 1;
    }
    let t = trim_range(s, seg_start, n);
    ops.push(t);
    proof {
        assert(rest.take(n - (k + 1)) =~= rest);
        lemma_split_plus_len(rest);
        assert(ops@.last()@ == t@);
        assert(ops_split_of(rest, ops@));
        assert(parse_ok_at(s@, k as int, key@, ops@));
        assert(exists|kk: int| parse_ok_at(s@, kk, key@, ops@));
    }
    let r = Ok::<(String, Vec<String>), ParseError>((key, ops));
    proof {
        assert(r matches Ok(p) ==> p.0@ == key@ && p.1@ == ops@);
    }
    r
}

} // verus!
