use vstd::prelude::*;
use vstd::utf8::encode_utf8;
use crate::broker::state::ClientSubscription;

verus! {

/// The byte of the level separator `/`.
pub open spec fn is_separator(b: u8) -> bool {
    b == 47
}

/// Whether a level is the single-level wildcard `+`.
pub open spec fn is_plus(level: Seq<u8>) -> bool {
    level == seq![43u8]
}

/// Whether a level is the multi-level wildcard `#`.
pub open spec fn is_hash(level: Seq<u8>) -> bool {
    level == seq![35u8]
}

/// The index of the first separator in `b` at or after `i`, or -1 when there is none.
pub open spec fn slash_from(b: Seq<u8>, i: int) -> int
    decreases b.len() - i,
{
    if i < 0 || i >= b.len() {
        -1
    } else if is_separator(b[i]) {
        i
    } else {
        slash_from(b, i + 1)
    }
}

/// The index of the first separator in `b`, or -1 when there is none.
pub open spec fn first_slash(b: Seq<u8>) -> int {
    slash_from(b, 0)
}

proof fn lemma_slash_from(b: Seq<u8>, i: int)
    requires
        0 <= i,
    ensures
        slash_from(b, i) == -1 || (i <= slash_from(b, i) < b.len() && is_separator(
            b[slash_from(b, i)],
        )),
        slash_from(b, i) == -1 ==> forall|j: int| i <= j < b.len() ==> !is_separator(b[j]),
        slash_from(b, i) >= 0 ==> forall|j: int| i <= j < slash_from(b, i) ==> !is_separator(b[j]),
    decreases b.len() - i,
{
    if i < b.len() && !is_separator(b[i]) {
        lemma_slash_from(b, i + 1);
    }
}

/// The levels of a topic name or filter: its bytes cut at every separator.
pub open spec fn levels(b: Seq<u8>) -> Seq<Seq<u8>>
    decreases b.len(),
{
    let i = first_slash(b);
    if i < 0 || i >= b.len() {
        seq![b]
    } else {
        seq![b.take(i)] + levels(b.skip(i + 1))
    }
}

/// The levels of a topic name or filter given as text (cut in its UTF-8 bytes, where the
/// separator byte stands for `/` alone).
pub open spec fn topic_levels(path: Seq<char>) -> Seq<Seq<u8>> {
    levels(encode_utf8(path))
}

/// Whether the filter levels `f` match the topic levels `t`: `+` matches any one level, a
/// `#` as the last filter level matches whatever follows (nothing included), and any other
/// level matches only itself.
pub open spec fn filter_matches(f: Seq<Seq<u8>>, t: Seq<Seq<u8>>) -> bool
    decreases f.len(),
{
    if f.len() == 0 {
        t.len() == 0
    } else if is_hash(f[0]) {
        f.len() == 1
    } else if t.len() == 0 {
        false
    } else if is_plus(f[0]) || f[0] == t[0] {
        filter_matches(f.drop_first(), t.drop_first())
    } else {
        false
    }
}

/// Whether `#` occurs only as the last level of `f`; other filters are not stored.
pub open spec fn valid_filter(f: Seq<Seq<u8>>) -> bool {
    forall|i: int| 0 <= i < f.len() - 1 ==> !is_hash(#[trigger] f[i])
}

/// The index of the last subscriber entry of client `c`, or -1.
pub open spec fn sub_index(s: Seq<(String, ClientSubscription)>, c: Seq<char>) -> int
    decreases s.len(),
{
    if s.len() == 0 {
        -1
    } else if s.last().0@ == c {
        s.len() - 1
    } else {
        sub_index(s.drop_last(), c)
    }
}

/// The subscriptions that a list of entries holds, by client id.
pub open spec fn pairs_map(s: Seq<(String, ClientSubscription)>) -> Map<Seq<char>, ClientSubscription> {
    Map::new(|c: Seq<char>| sub_index(s, c) >= 0, |c: Seq<char>| s[sub_index(s, c)].1)
}

/// No client id occurs twice.
pub open spec fn sub_keys_distinct(s: Seq<(String, ClientSubscription)>) -> bool {
    forall|i: int, j: int| 0 <= i < j < s.len() ==> s[i].0@ != s[j].0@
}

/// The index of the last child under level `seg`, or -1.
pub open spec fn child_index(s: Seq<(Vec<u8>, TopicNode)>, seg: Seq<u8>) -> int
    decreases s.len(),
{
    if s.len() == 0 {
        -1
    } else if s.last().0@ == seg {
        s.len() - 1
    } else {
        child_index(s.drop_last(), seg)
    }
}

/// A node of the subscription tree: the subscribers of the filter that ends here, the
/// children by level, and the nodes below the `+` and `#` wildcards.
pub struct TopicNode {
    pub subscribers: Vec<(String, ClientSubscription)>,
    pub childrens: Vec<(Vec<u8>, TopicNode)>,
    pub wildcard_single: Option<Box<TopicNode>>,
    pub wildcard_multi: Option<Box<TopicNode>>,
}

/// The subscription tree is its root node.
pub type TopicTree = TopicNode;

impl TopicNode {
    /// Well-formed: no client id twice among the subscribers, no level twice among the
    /// children, no wildcard as a child's level, and the same below.
    pub open spec fn wf(self) -> bool
        decreases self,
    {
        &&& sub_keys_distinct(self.subscribers@)
        &&& forall|i: int, j: int|
            0 <= i < j < self.childrens@.len() ==> self.childrens@[i].0@ != self.childrens@[j].0@
        &&& forall|i: int|
            0 <= i < self.childrens@.len() ==> {
                &&& !is_plus(#[trigger] self.childrens@[i].0@)
                &&& !is_hash(self.childrens@[i].0@)
                &&& self.childrens@[i].1.wf()
            }
        &&& (self.wildcard_single matches Some(n) ==> n.wf())
        &&& (self.wildcard_multi matches Some(n) ==> n.wf() && n.childrens@.len() == 0
            && n.wildcard_single is None && n.wildcard_multi is None)
    }

    /// The subscribers of the filter that ends at this node.
    pub open spec fn subscriber_map(self) -> Map<Seq<char>, ClientSubscription> {
        pairs_map(self.subscribers@)
    }

    /// The subscribers of the filter that ends in `#` below this node.
    pub open spec fn multi_map(self) -> Map<Seq<char>, ClientSubscription> {
        match self.wildcard_multi {
            Some(n) => n.subscriber_map(),
            None => Map::empty(),
        }
    }

    /// The subscription of client `c` under the filter whose levels below this node are `f`.
    pub open spec fn stored(self, f: Seq<Seq<u8>>, c: Seq<char>) -> Option<ClientSubscription>
        decreases self,
    {
        if f.len() == 0 {
            if self.subscriber_map().dom().contains(c) {
                Some(self.subscriber_map()[c])
            } else {
                None
            }
        } else if is_plus(f[0]) {
            match self.wildcard_single {
                Some(n) => n.stored(f.drop_first(), c),
                None => None,
            }
        } else if is_hash(f[0]) {
            if f.len() == 1 {
                match self.wildcard_multi {
                    Some(n) => n.stored(f.drop_first(), c),
                    None => None,
                }
            } else {
                None
            }
        } else {
            let i = child_index(self.childrens@, f[0]);
            if 0 <= i < self.childrens@.len() {
                self.childrens@[i].1.stored(f.drop_first(), c)
            } else {
                None
            }
        }
    }

    /// What a lookup of the topic levels `t` (at least one) collects below this node, in the
    /// order in which later finds replace earlier ones for the same client: the `#` node
    /// here, then for a deeper topic the `+` branch and the child of the first level, and
    /// for a last level the `+` node with its `#` node and the child with its `#` node.
    pub open spec fn collect(self, t: Seq<Seq<u8>>) -> Map<Seq<char>, ClientSubscription>
        decreases self,
    {
        let here = self.multi_map();
        let i = child_index(self.childrens@, t[0]);
        if t.len() > 1 {
            let with_single = match self.wildcard_single {
                Some(n) => here.union_prefer_right(n.collect(t.drop_first())),
                None => here,
            };
            if 0 <= i < self.childrens@.len() {
                with_single.union_prefer_right(self.childrens@[i].1.collect(t.drop_first()))
            } else {
                with_single
            }
        } else {
            let with_single = match self.wildcard_single {
                Some(n) => here.union_prefer_right(n.subscriber_map()).union_prefer_right(
                    n.multi_map(),
                ),
                None => here,
            };
            if 0 <= i < self.childrens@.len() {
                with_single.union_prefer_right(
                    self.childrens@[i].1.subscriber_map(),
                ).union_prefer_right(self.childrens@[i].1.multi_map())
            } else {
                with_single
            }
        }
    }

    /// The node holds nothing: no subscribers, no children and no non-empty wildcard node.
    pub open spec fn spec_is_empty(self) -> bool
        decreases self,
    {
        &&& self.subscribers@.len() == 0
        &&& self.childrens@.len() == 0
        &&& (self.wildcard_single matches Some(n) ==> n.spec_is_empty())
        &&& (self.wildcard_multi matches Some(n) ==> n.spec_is_empty())
    }

    /// An empty node.
    pub fn new() -> (r: Self)
        ensures
            r.wf(),
            r.subscribers@.len() == 0,
            r.childrens@.len() == 0,
            r.wildcard_single is None,
            r.wildcard_multi is None,
            r.spec_is_empty(),
            forall|f: Seq<Seq<u8>>, c: Seq<char>| r.stored(f, c) is None,
    {
        let r = Self {
            subscribers: Vec::new(),
            childrens: Vec::new(),
            wildcard_single: None,
            wildcard_multi: None,
        };
        assert forall|f: Seq<Seq<u8>>, c: Seq<char>| r.stored(f, c) is None by {
            assert(!r.subscriber_map().dom().contains(c));
        }
        r
    }

    /// Whether the node holds nothing.
    pub fn is_empty(&self) -> (r: bool)
        ensures
            r == self.spec_is_empty(),
        decreases self,
    {
        self.subscribers.is_empty() && self.childrens.is_empty() && match &self.wildcard_single {
            None => true,
            Some(c) => c.is_empty(),
        } && match &self.wildcard_multi {
            None => true,
            Some(c) => c.is_empty(),
        }
    }
}


impl Default for TopicNode {
    fn default() -> (r: Self)
        ensures
            r.wf(),
            r.subscribers@.len() == 0,
            r.childrens@.len() == 0,
            r.wildcard_single is None,
            r.wildcard_multi is None,
            forall|f: Seq<Seq<u8>>, c: Seq<char>| r.stored(f, c) is None,
    {
        TopicNode::new()
    }
}

/// Where a client id is found in an entry list, and that nothing after it has that id.
pub proof fn lemma_sub_index(s: Seq<(String, ClientSubscription)>, c: Seq<char>)
    ensures
        -1 <= sub_index(s, c) < s.len(),
        sub_index(s, c) >= 0 ==> s[sub_index(s, c)].0@ == c,
        forall|j: int| sub_index(s, c) < j < s.len() ==> s[j].0@ != c,
    decreases s.len(),
{
    if s.len() > 0 && s.last().0@ != c {
        lemma_sub_index(s.drop_last(), c);
        assert forall|j: int| sub_index(s, c) < j < s.len() implies s[j].0@ != c by {
            if j < s.len() - 1 {
                assert(s[j] == s.drop_last()[j]);
            }
        }
    }
}

/// The entry list with one more entry at the end finds its client there.
proof fn lemma_pairs_map_push(s: Seq<(String, ClientSubscription)>, x: (String, ClientSubscription))
    ensures
        pairs_map(s.push(x)) == pairs_map(s).insert(x.0@, x.1),
{
    let t = s.push(x);
    assert(t.drop_last() =~= s);
    assert forall|c: Seq<char>| #![auto] sub_index(s, c) >= 0 implies t[sub_index(s, c)] == s[sub_index(s, c)] by {
        lemma_sub_index(s, c);
    }
    assert(pairs_map(t) =~= pairs_map(s).insert(x.0@, x.1));
}

/// Replacing the value of the entry at `j` replaces the value of its client.
proof fn lemma_pairs_map_set(s: Seq<(String, ClientSubscription)>, j: int, x: (String, ClientSubscription))
    requires
        sub_keys_distinct(s),
        0 <= j < s.len(),
        s[j].0@ == x.0@,
    ensures
        pairs_map(s.update(j, x)) == pairs_map(s).insert(x.0@, x.1),
        sub_keys_distinct(s.update(j, x)),
{
    let t = s.update(j, x);
    assert forall|c: Seq<char>| #![auto] sub_index(t, c) == sub_index(s, c) by {
        lemma_sub_index_same_keys(t, s, c);
    }
    assert forall|c: Seq<char>| #![auto] sub_index(s, c) >= 0 && c != x.0@ implies t[sub_index(s, c)] == s[sub_index(s, c)] by {
        lemma_sub_index(s, c);
    }
    lemma_sub_index_distinct(s, x.0@, j);
    assert(pairs_map(t) =~= pairs_map(s).insert(x.0@, x.1));
}

/// In an entry list without repeated ids, an id is found where it is.
pub proof fn lemma_sub_index_distinct(s: Seq<(String, ClientSubscription)>, c: Seq<char>, j: int)
    requires
        sub_keys_distinct(s),
        0 <= j < s.len(),
        s[j].0@ == c,
    ensures
        sub_index(s, c) == j,
{
    lemma_sub_index(s, c);
}

/// Two entry lists with the same keys at the same places find a client at the same place.
proof fn lemma_sub_index_same_keys(s: Seq<(String, ClientSubscription)>, t: Seq<(String, ClientSubscription)>, c: Seq<char>)
    requires
        s.len() == t.len(),
        forall|j: int| 0 <= j < s.len() ==> s[j].0@ == t[j].0@,
    ensures
        sub_index(s, c) == sub_index(t, c),
    decreases s.len(),
{
    if s.len() > 0 {
        lemma_sub_index_same_keys(s.drop_last(), t.drop_last(), c);
    }
}

proof fn lemma_child_index_distinct(s: Seq<(Vec<u8>, TopicNode)>, seg: Seq<u8>, j: int)
    requires
        forall|a: int, b: int| 0 <= a < b < s.len() ==> s[a].0@ != s[b].0@,
        0 <= j < s.len(),
        s[j].0@ == seg,
    ensures
        child_index(s, seg) == j,
{
    lemma_child_index(s, seg);
}

proof fn lemma_child_index(s: Seq<(Vec<u8>, TopicNode)>, seg: Seq<u8>)
    ensures
        -1 <= child_index(s, seg) < s.len(),
        child_index(s, seg) >= 0 ==> s[child_index(s, seg)].0@ == seg,
        forall|j: int| child_index(s, seg) < j < s.len() ==> s[j].0@ != seg,
    decreases s.len(),
{
    if s.len() > 0 && s.last().0@ != seg {
        lemma_child_index(s.drop_last(), seg);
        assert forall|j: int| child_index(s, seg) < j < s.len() implies s[j].0@ != seg by {
            if j < s.len() - 1 {
                assert(s[j] == s.drop_last()[j]);
            }
        }
    }
}

/// Two child lists with the same levels at the same places find a level at the same place.
proof fn lemma_child_index_same_keys(s: Seq<(Vec<u8>, TopicNode)>, t: Seq<(Vec<u8>, TopicNode)>, seg: Seq<u8>)
    requires
        s.len() == t.len(),
        forall|j: int| 0 <= j < s.len() ==> s[j].0@ == t[j].0@,
    ensures
        child_index(s, seg) == child_index(t, seg),
    decreases s.len(),
{
    if s.len() > 0 {
        lemma_child_index_same_keys(s.drop_last(), t.drop_last(), seg);
    }
}

/// Whether two byte slices hold the same bytes.
fn same_bytes(a: &[u8], b: &[u8]) -> (r: bool)
    ensures
        r == (a@ == b@),
{
    if a.len() != b.len() {
        return false;
    }
    let mut i: usize = 0;
    while i < a.len()
        invariant
            a.len() == b.len(),
            i <= a.len(),
            forall|j: int| 0 <= j < i ==> a@[j] == b@[j],
        decreases a.len() - i,
    {
        if a[i] != b[i] {
            return false;
        }
        i += 1;
    }
    assert(a@ =~= b@);
    true
}

/// The place of the last entry of client `c`.
fn find_sub(s: &Vec<(String, ClientSubscription)>, c: &String) -> (r: Option<usize>)
    ensures
        r matches Some(j) ==> sub_index(s@, c@) == j,
        r is None ==> sub_index(s@, c@) == -1,
{
    let mut i = s.len();
    assert(s@.take(i as int) =~= s@);
    while i > 0
        invariant
            i <= s.len(),
            sub_index(s@, c@) == sub_index(s@.take(i as int), c@),
        decreases i,
    {
        i -= 1;
        assert(s@.take(i + 1).drop_last() =~= s@.take(i as int));
        if s[i].0 == *c {
            return Some(i);
        }
    }
    None
}

/// The place of the last child under level `seg`.
fn find_child(s: &Vec<(Vec<u8>, TopicNode)>, seg: &[u8]) -> (r: Option<usize>)
    ensures
        r matches Some(j) ==> child_index(s@, seg@) == j,
        r is None ==> child_index(s@, seg@) == -1,
{
    let mut i = s.len();
    assert(s@.take(i as int) =~= s@);
    while i > 0
        invariant
            i <= s.len(),
            child_index(s@, seg@) == child_index(s@.take(i as int), seg@),
        decreases i,
    {
        i -= 1;
        assert(s@.take(i + 1).drop_last() =~= s@.take(i as int));
        if same_bytes(s[i].0.as_slice(), seg) {
            return Some(i);
        }
    }
    None
}

/// Records `v` as the subscription of client `k` in `out`.
fn put_sub(out: &mut Vec<(String, ClientSubscription)>, k: String, v: ClientSubscription)
    requires
        sub_keys_distinct(old(out)@),
    ensures
        sub_keys_distinct(final(out)@),
        pairs_map(final(out)@) == pairs_map(old(out)@).insert(k@, v),
{
    proof {
        lemma_sub_index(old(out)@, k@);
    }
    match find_sub(out, &k) {
        Some(j) => {
            proof {
                lemma_pairs_map_set(out@, j as int, (k, v));
            }
            out.set(j, (k, v));
        },
        None => {
            proof {
                lemma_pairs_map_push(out@, (k, v));
                assert forall|a: int, b: int| 0 <= a < b < out@.len() + 1 implies #[trigger] out@.push((k, v))[a].0@
                    != #[trigger] out@.push((k, v))[b].0@ by {
                    if b == out@.len() {
                        lemma_sub_index(out@, k@);
                    }
                }
            }
            out.push((k, v));
        },
    }
}

/// Records every entry of `src` in `out`, later entries replacing earlier ones.
fn extend_subs(out: &mut Vec<(String, ClientSubscription)>, src: &Vec<(String, ClientSubscription)>)
    requires
        sub_keys_distinct(old(out)@),
    ensures
        sub_keys_distinct(final(out)@),
        pairs_map(final(out)@) == pairs_map(old(out)@).union_prefer_right(pairs_map(src@)),
{
    let mut i: usize = 0;
    assert(pairs_map(src@.take(0)) =~= Map::empty());
    assert(pairs_map(out@) =~= pairs_map(old(out)@).union_prefer_right(pairs_map(src@.take(0))));
    while i < src.len()
        invariant
            i <= src.len(),
            sub_keys_distinct(out@),
            pairs_map(out@) == pairs_map(old(out)@).union_prefer_right(pairs_map(src@.take(i as int))),
        decreases src.len() - i,
    {
        let key = src[i].0.clone();
        let value = src[i].1;
        put_sub(out, key, value);
        proof {
            assert(src@.take(i + 1) =~= src@.take(i as int).push(src@[i as int]));
            lemma_pairs_map_push(src@.take(i as int), src@[i as int]);
        }
        i += 1;
        assert(pairs_map(out@) =~= pairs_map(old(out)@).union_prefer_right(pairs_map(src@.take(i as int))));
    }
    assert(src@.take(i as int) =~= src@);
}

/// Cuts a topic at its first separator: the first level, and the rest when there is a
/// separator.
fn split_level(path: &[u8]) -> (r: (&[u8], Option<&[u8]>))
    ensures
        levels(path@)[0] == r.0@,
        r.1 is None <==> levels(path@).len() == 1,
        r.1 matches Some(rest) ==> levels(path@).drop_first() == levels(rest@) && rest@.len() < path@.len(),
{
    let mut i: usize = 0;
    while i < path.len()
        invariant
            i <= path.len(),
            first_slash(path@) == slash_from(path@, i as int),
        decreases path.len() - i,
    {
        if path[i] == 47 {
            let (segment, tail) = path.split_at(i);
            let (_, rest) = tail.split_at(1);
            assert(rest@ =~= path@.skip(i + 1));
            assert(levels(path@) == seq![path@.take(i as int)] + levels(path@.skip(i + 1)));
            assert(levels(path@).drop_first() =~= levels(path@.skip(i + 1)));
            return (segment, Some(rest));
        }
        i += 1;
    }
    assert(levels(path@) == seq![path@]);
    (path, None)
}

impl TopicNode {
    /// The subscribers of every filter that matches the topic `path`, each client once.
    pub fn get_match(&self, path: &str) -> (r: Vec<(String, ClientSubscription)>)
        requires
            self.wf(),
        ensures
            sub_keys_distinct(r@),
            pairs_map(r@) == self.collect(topic_levels(path@)),
    {
        let mut matches: Vec<(String, ClientSubscription)> = Vec::new();
        assert(pairs_map(matches@) =~= Map::empty());
        self.collect_into(path.as_bytes(), &mut matches);
        assert(pairs_map(matches@) =~= self.collect(topic_levels(path@)));
        matches
    }

    /// Adds to `out` what a lookup of the topic `path` collects below this node.
    fn collect_into(&self, path: &[u8], out: &mut Vec<(String, ClientSubscription)>)
        requires
            self.wf(),
            sub_keys_distinct(old(out)@),
        ensures
            sub_keys_distinct(final(out)@),
            pairs_map(final(out)@) == pairs_map(old(out)@).union_prefer_right(self.collect(levels(path@))),
        decreases self,
    {
        let ghost start = pairs_map(out@);
        if let Some(multi) = &self.wildcard_multi {
            extend_subs(out, &multi.subscribers);
        }
        let (segment, rest) = split_level(path);
        let found = find_child(&self.childrens, segment);
        proof {
            lemma_child_index(self.childrens@, segment@);
        }
        match rest {
            Some(rest) => {
                if let Some(single) = &self.wildcard_single {
                    single.collect_into(rest, out);
                }
                if let Some(j) = found {
                    self.childrens[j].1.collect_into(rest, out);
                }
            },
            None => {
                if let Some(single) = &self.wildcard_single {
                    extend_subs(out, &single.subscribers);
                    if let Some(multi) = &single.wildcard_multi {
                        extend_subs(out, &multi.subscribers);
                    }
                }
                if let Some(j) = found {
                    let child = &self.childrens[j].1;
                    extend_subs(out, &child.subscribers);
                    if let Some(multi) = &child.wildcard_multi {
                        extend_subs(out, &multi.subscribers);
                    }
                }
            },
        }
        assert(pairs_map(out@) =~= start.union_prefer_right(self.collect(levels(path@))));
    }
}


/// Whether inserting under the filter levels `f` leaves a node where there was none (or a
/// subscriber): always, but for a `#` that is not the last level, which stops the insertion,
/// and for `+` levels that lead to such a `#`.
pub open spec fn insert_marks(f: Seq<Seq<u8>>) -> bool
    decreases f.len(),
{
    if f.len() <= 1 {
        true
    } else if is_hash(f[0]) {
        false
    } else if is_plus(f[0]) {
        insert_marks(f.drop_first())
    } else {
        true
    }
}

/// The bytes of the wildcard levels.
fn is_plus_bytes(seg: &[u8]) -> (r: bool)
    ensures
        r == is_plus(seg@),
{
    let r = seg.len() == 1 && seg[0] == 43;
    proof {
        if r {
            assert(seg@ =~= seq![43u8]);
        }
    }
    r
}

fn is_hash_bytes(seg: &[u8]) -> (r: bool)
    ensures
        r == is_hash(seg@),
{
    let r = seg.len() == 1 && seg[0] == 35;
    proof {
        if r {
            assert(seg@ =~= seq![35u8]);
        }
    }
    r
}

/// What an insertion under `f` does to what is stored: the subscription of client `c` under
/// `f` becomes `sub` when `f` is a valid filter, and nothing else changes.
pub open spec fn inserted(
    old_stored: spec_fn(Seq<Seq<u8>>, Seq<char>) -> Option<ClientSubscription>,
    new_stored: spec_fn(Seq<Seq<u8>>, Seq<char>) -> Option<ClientSubscription>,
    f: Seq<Seq<u8>>,
    c: Seq<char>,
    sub: ClientSubscription,
) -> bool {
    forall|g: Seq<Seq<u8>>, d: Seq<char>|
        #[trigger] new_stored(g, d) == if g == f && d == c && valid_filter(f) {
            Some(sub)
        } else {
            old_stored(g, d)
        }
}

impl TopicNode {
    /// The subscription of client `c` under the filter levels `f`, as a function.
    pub open spec fn stored_fn(self) -> spec_fn(Seq<Seq<u8>>, Seq<char>) -> Option<ClientSubscription> {
        |f: Seq<Seq<u8>>, c: Seq<char>| self.stored(f, c)
    }

    /// Subscribes client `client_id` to the topic filter `path` with `subscription`,
    /// replacing its subscription to that filter. A filter with `#` before its last level is
    /// not stored (though the nodes of the levels before it may be created).
    pub fn insert(&mut self, path: &str, client_id: String, subscription: ClientSubscription)
        requires
            old(self).wf(),
        ensures
            final(self).wf(),
            inserted(old(self).stored_fn(), final(self).stored_fn(), topic_levels(path@), client_id@, subscription),
            final(self).spec_is_empty() == (old(self).spec_is_empty() && !insert_marks(topic_levels(path@))),
    {
        self.insert_levels(path.as_bytes(), client_id, subscription);
    }

    /// Puts a subscriber on this node.
    fn put_here(&mut self, client_id: String, sub: ClientSubscription)
        requires
            old(self).wf(),
        ensures
            final(self).wf(),
            inserted(old(self).stored_fn(), final(self).stored_fn(), Seq::empty(), client_id@, sub),
            !final(self).spec_is_empty(),
            final(self).childrens == old(self).childrens,
            final(self).wildcard_single == old(self).wildcard_single,
            final(self).wildcard_multi == old(self).wildcard_multi,
    {
        let ghost key = client_id@;
        put_sub(&mut self.subscribers, client_id, sub);
        assert(self.subscriber_map().dom().contains(key));
        assert(self.subscribers@.len() > 0);
        assert forall|g: Seq<Seq<u8>>, d: Seq<char>| #[trigger] self.stored_fn()(g, d) == if g == Seq::<Seq<u8>>::empty() && d == key
            && valid_filter(Seq::<Seq<u8>>::empty()) {
            Some(sub)
        } else {
            old(self).stored_fn()(g, d)
        } by {
            if g.len() == 0 {
                assert(g =~= Seq::<Seq<u8>>::empty());
            }
        }
    }

    /// Inserts below this node under the levels of `path`.
    fn insert_levels(&mut self, path: &[u8], client_id: String, sub: ClientSubscription)
        requires
            old(self).wf(),
        ensures
            final(self).wf(),
            inserted(old(self).stored_fn(), final(self).stored_fn(), levels(path@), client_id@, sub),
            final(self).spec_is_empty() == (old(self).spec_is_empty() && !insert_marks(levels(path@))),
        decreases path@.len(),
    {
        let ghost f = levels(path@);
        let ghost key = client_id@;
        let (segment, rest) = split_level(path);
        proof {
            assert(f[0] == segment@);
            assert(f.len() >= 1);
        }
        if is_plus_bytes(segment) {
            let mut node = match self.wildcard_single.take() {
                Some(b) => *b,
                None => TopicNode::new(),
            };
            let ghost before = node;
            match rest {
                Some(r) => node.insert_levels(r, client_id, sub),
                None => node.put_here(client_id, sub),
            }
            self.wildcard_single = Some(Box::new(node));
            proof {
                assert(f[0][0] == 43);
                if f.len() > 1 {
                    assert(insert_marks(f) == insert_marks(f.drop_first()));
                }
                assert(self.spec_is_empty() == (old(self).spec_is_empty() && !insert_marks(f)));
                assert forall|g: Seq<Seq<u8>>, d: Seq<char>| #[trigger] self.stored_fn()(g, d) == if g == f && d == key && valid_filter(f) {
                    Some(sub)
                } else {
                    old(self).stored_fn()(g, d)
                } by {
                    if g.len() > 0 && is_plus(g[0]) {
                        let h = g.drop_first();
                        let fr = f.drop_first();
                        assert(self.stored(g, d) == node.stored(h, d));
                        assert(node.stored_fn()(h, d) == node.stored(h, d));
                        assert(before.stored_fn()(h, d) == before.stored(h, d));
                        if old(self).wildcard_single is None {
                            assert(before.stored(h, d) is None);
                        }
                        lemma_first_rest(g, f);
                        assert(f[0][0] == 43);
                        lemma_valid_filter_rest(f);
                        if rest is None {
                            assert(fr =~= Seq::<Seq<u8>>::empty());
                        }
                    } else if g == f {
                        assert(is_plus(g[0]));
                    }
                }
            }
        } else if is_hash_bytes(segment) {
            match rest {
                Some(_) => {
                    proof {
                        assert(!valid_filter(f)) by {
                            assert(is_hash(f[0]));
                        }
                        assert(!insert_marks(f));
                    }
                },
                None => {
                    let mut node = match self.wildcard_multi.take() {
                        Some(b) => *b,
                        None => TopicNode::new(),
                    };
                    let ghost before = node;
                    node.put_here(client_id, sub);
                    self.wildcard_multi = Some(Box::new(node));
                    proof {
                        assert(self.spec_is_empty() == (old(self).spec_is_empty() && !insert_marks(f)));
                        assert forall|g: Seq<Seq<u8>>, d: Seq<char>| #[trigger] self.stored_fn()(g, d) == if g == f && d == key && valid_filter(f) {
                            Some(sub)
                        } else {
                            old(self).stored_fn()(g, d)
                        } by {
                            if g.len() == 1 && is_hash(g[0]) {
                                let h = g.drop_first();
                                assert(h =~= Seq::<Seq<u8>>::empty());
                                assert(g =~= f);
                                assert(node.stored_fn()(h, d) == node.stored(h, d));
                                assert(before.stored_fn()(h, d) == before.stored(h, d));
                                if old(self).wildcard_multi is None {
                                    assert(before.stored(h, d) is None);
                                }
                            } else if g == f {
                                assert(is_hash(g[0]));
                            }
                        }
                    }
                },
            }
        } else {
            let found = find_child(&self.childrens, segment);
            proof {
                lemma_child_index(self.childrens@, segment@);
            }
            match found {
                Some(j) => {
                    let ghost old_children = self.childrens@;
                    let (level, mut node) = self.childrens.remove(j);
                    let ghost before = node;
                    match rest {
                        Some(r) => node.insert_levels(r, client_id, sub),
                        None => {
                            node.put_here(client_id, sub);
                            assert(f.drop_first() =~= Seq::<Seq<u8>>::empty());
                        },
                    }
                    let ghost entry = (level, node);
                    self.childrens.insert(j, (level, node));
                    proof {
                        assert(self.childrens@ =~= old_children.update(j as int, entry));
                        assert forall|s2: Seq<u8>| #![auto] child_index(self.childrens@, s2) == child_index(old_children, s2) by {
                            lemma_child_index_same_keys(self.childrens@, old_children, s2);
                        }
                        lemma_insert_child(*old(self), *self, j as int, before, f, key, sub);
                    }
                },
                None => {
                    let mut node = TopicNode::new();
                    let ghost before = node;
                    match rest {
                        Some(r) => node.insert_levels(r, client_id, sub),
                        None => {
                            node.put_here(client_id, sub);
                            assert(f.drop_first() =~= Seq::<Seq<u8>>::empty());
                        },
                    }
                    let level = vstd::slice::slice_to_vec(segment);
                    let ghost old_children = self.childrens@;
                    self.childrens.push((level, node));
                    proof {
                        assert(self.childrens@.drop_last() =~= old_children);
                        assert forall|s2: Seq<u8>| s2 != segment@ implies #[trigger] child_index(self.childrens@, s2) == child_index(old_children, s2) by {}
                        lemma_insert_child(*old(self), *self, old_children.len() as int, before, f, key, sub);
                    }
                },
            }
        }
    }
}


/// Inserting below the child of the first level `f[0]` (an existing child, or a new one in
/// place of none) inserts under `f` in the parent.
proof fn lemma_insert_child(
    o: TopicNode,
    n: TopicNode,
    j: int,
    before: TopicNode,
    f: Seq<Seq<u8>>,
    c: Seq<char>,
    sub: ClientSubscription,
)
    requires
        n.subscribers == o.subscribers,
        n.wildcard_single == o.wildcard_single,
        n.wildcard_multi == o.wildcard_multi,
        f.len() >= 1,
        !is_plus(f[0]),
        !is_hash(f[0]),
        0 <= j < n.childrens@.len(),
        o.childrens@.len() <= n.childrens@.len(),
        n.childrens@[j].0@ == f[0],
        child_index(n.childrens@, f[0]) == j,
        forall|s2: Seq<u8>| s2 != f[0] ==> #[trigger] child_index(n.childrens@, s2) == child_index(o.childrens@, s2),
        forall|k: int| 0 <= k < n.childrens@.len() && k != j ==> #[trigger] n.childrens@[k] == o.childrens@[k],
        (child_index(o.childrens@, f[0]) == j && o.childrens@[j].1 == before) || (child_index(o.childrens@, f[0]) == -1 && j == o.childrens@.len() && forall|h: Seq<Seq<u8>>, d: Seq<char>| #[trigger] before.stored(h, d) is None),
        inserted(before.stored_fn(), n.childrens@[j].1.stored_fn(), f.drop_first(), c, sub),
    ensures
        inserted(o.stored_fn(), n.stored_fn(), f, c, sub),
{
    let fr = f.drop_first();
    assert forall|g: Seq<Seq<u8>>, d: Seq<char>| #[trigger] n.stored_fn()(g, d) == if g == f && d == c && valid_filter(f) {
        Some(sub)
    } else {
        o.stored_fn()(g, d)
    } by {
        lemma_child_index(o.childrens@, g[0]);
        if g.len() > 0 && !is_plus(g[0]) && !is_hash(g[0]) {
            if g[0] == f[0] {
                let h = g.drop_first();
                assert(n.stored(g, d) == n.childrens@[j].1.stored(h, d));
                assert(n.childrens@[j].1.stored_fn()(h, d) == n.childrens@[j].1.stored(h, d));
                assert(before.stored_fn()(h, d) == before.stored(h, d));
                lemma_first_rest(g, f);
                lemma_valid_filter_rest(f);
                if child_index(o.childrens@, f[0]) == -1 {
                    assert(before.stored(h, d) is None);
                }
            } else {
                lemma_child_index(o.childrens@, f[0]);
                let k = child_index(o.childrens@, g[0]);
                if k >= 0 {
                    assert(k != j);
                    assert(n.childrens@[k] == o.childrens@[k]);
                }
            }
        } else if g == f {
            assert(g[0] == f[0]);
        }
    }
}

/// Two level sequences with the same first level are equal exactly when their rests are.
proof fn lemma_first_rest(g: Seq<Seq<u8>>, f: Seq<Seq<u8>>)
    requires
        g.len() > 0,
        f.len() > 0,
        g[0] == f[0],
    ensures
        (g == f) == (g.drop_first() == f.drop_first()),
{
    if g.drop_first() == f.drop_first() {
        assert(g.drop_first().len() == g.len() - 1);
        assert(f.drop_first().len() == f.len() - 1);
        assert forall|i: int| 0 <= i < g.len() implies g[i] == f[i] by {
            if i > 0 {
                assert(g[i] == g.drop_first()[i - 1]);
                assert(f[i] == f.drop_first()[i - 1]);
            }
        }
        assert(g =~= f);
    }
}

/// A filter whose first level is not `#` is valid exactly when its rest is.
proof fn lemma_valid_filter_rest(f: Seq<Seq<u8>>)
    requires
        f.len() > 0,
        !is_hash(f[0]),
    ensures
        valid_filter(f) == valid_filter(f.drop_first()),
{
    let fr = f.drop_first();
    assert forall|i: int| 0 <= i < fr.len() - 1 implies #[trigger] fr[i] == f[i + 1] by {}
    if valid_filter(fr) {
        assert forall|i: int| 0 <= i < f.len() - 1 implies !is_hash(#[trigger] f[i]) by {
            if i > 0 {
                assert(f[i] == fr[i - 1]);
            }
        }
    }
}


/// Every client id of an entry list is found in it, with its value, when no id occurs twice.
proof fn lemma_pairs_map_distinct(s: Seq<(String, ClientSubscription)>)
    requires
        sub_keys_distinct(s),
    ensures
        forall|k: int| 0 <= k < s.len() ==> #[trigger] sub_index(s, s[k].0@) == k,
        forall|c: Seq<char>| #![auto] pairs_map(s).dom().contains(c) <==> exists|k: int| 0 <= k < s.len() && s[k].0@ == c,
{
    assert forall|k: int| 0 <= k < s.len() implies #[trigger] sub_index(s, s[k].0@) == k by {
        lemma_sub_index_distinct(s, s[k].0@, k);
    }
    assert forall|c: Seq<char>| #![auto] pairs_map(s).dom().contains(c) <==> exists|k: int| 0 <= k < s.len() && s[k].0@ == c by {
        lemma_sub_index(s, c);
        if exists|k: int| 0 <= k < s.len() && s[k].0@ == c {
            let k = choose|k: int| 0 <= k < s.len() && s[k].0@ == c;
            lemma_sub_index_distinct(s, c, k);
        }
    }
}

/// Removes the entry of client `c`, if any.
fn remove_sub(subs: &mut Vec<(String, ClientSubscription)>, c: &String)
    requires
        sub_keys_distinct(old(subs)@),
    ensures
        sub_keys_distinct(final(subs)@),
        pairs_map(final(subs)@) == pairs_map(old(subs)@).remove(c@),
        final(subs)@.len() <= old(subs)@.len(),
{
    proof {
        lemma_pairs_map_distinct(subs@);
        lemma_sub_index(subs@, c@);
    }
    match find_sub(subs, c) {
        Some(j) => {
            let ghost s0 = subs@;
            subs.remove(j);
            proof {
                let s1 = subs@;
                assert(s1 =~= s0.remove(j as int));
                assert forall|a: int, b: int| 0 <= a < b < s1.len() implies s1[a].0@ != s1[b].0@ by {
                    let a0 = if a < j { a } else { a + 1 };
                    let b0 = if b < j { b } else { b + 1 };
                    assert(s1[a] == s0[a0] && s1[b] == s0[b0]);
                }
                lemma_pairs_map_distinct(s1);
                assert forall|d: Seq<char>| #![auto] pairs_map(s1).dom().contains(d) <==> pairs_map(s0).remove(c@).dom().contains(d) by {
                    if pairs_map(s1).dom().contains(d) {
                        let k = choose|k: int| 0 <= k < s1.len() && s1[k].0@ == d;
                        let k0 = if k < j { k } else { k + 1 };
                        assert(s1[k] == s0[k0]);
                        assert(d != c@);
                    }
                    if pairs_map(s0).remove(c@).dom().contains(d) {
                        let k0 = choose|k: int| 0 <= k < s0.len() && s0[k].0@ == d;
                        assert(k0 != j);
                        let k = if k0 < j { k0 } else { k0 - 1 };
                        assert(s1[k] == s0[k0]);
                    }
                }
                assert forall|d: Seq<char>| #![auto] pairs_map(s1).dom().contains(d) implies pairs_map(s1)[d] == pairs_map(s0)[d] by {
                    let k = choose|k: int| 0 <= k < s1.len() && s1[k].0@ == d;
                    let k0 = if k < j { k } else { k + 1 };
                    assert(s1[k] == s0[k0]);
                    assert(sub_index(s1, d) == k);
                    assert(sub_index(s0, d) == k0);
                }
                assert(pairs_map(s1) =~= pairs_map(s0).remove(c@));
            }
        },
        None => {
            assert(pairs_map(subs@) =~= pairs_map(subs@).remove(c@));
        },
    }
}

/// An empty node stores no subscription.
pub proof fn lemma_empty_stores_nothing(n: TopicNode, f: Seq<Seq<u8>>, c: Seq<char>)
    requires
        n.spec_is_empty(),
    ensures
        n.stored(f, c) is None,
    decreases n,
{
    if f.len() == 0 {
        assert(!n.subscriber_map().dom().contains(c));
    } else if is_plus(f[0]) {
        if let Some(m) = n.wildcard_single {
            lemma_empty_stores_nothing(*m, f.drop_first(), c);
        }
    } else if is_hash(f[0]) {
        if let Some(m) = n.wildcard_multi {
            lemma_empty_stores_nothing(*m, f.drop_first(), c);
        }
    }
}

/// The node stores no subscription of a client other than `c`.
pub open spec fn holds_only(n: TopicNode, c: Seq<char>) -> bool {
    forall|h: Seq<Seq<u8>>, d: Seq<char>| d != c ==> #[trigger] n.stored(h, d) is None
}

/// What removing client `c` does to what a node stores: its subscriptions are gone and
/// nothing else changes.
pub open spec fn removed(old_node: TopicNode, new_node: TopicNode, c: Seq<char>) -> bool {
    forall|g: Seq<Seq<u8>>, d: Seq<char>|
        #[trigger] new_node.stored(g, d) == if d == c {
            None
        } else {
            old_node.stored(g, d)
        }
}

impl TopicNode {
    /// Pruned: no child and no wildcard node is empty, and the same below.
    pub open spec fn pruned(self) -> bool
        decreases self,
    {
        &&& forall|i: int|
            #![trigger self.childrens@[i]]
            0 <= i < self.childrens@.len() ==> self.childrens@[i].1.pruned()
                && !self.childrens@[i].1.spec_is_empty()
        &&& (self.wildcard_single matches Some(n) ==> n.pruned() && !n.spec_is_empty())
        &&& (self.wildcard_multi matches Some(n) ==> n.pruned() && !n.spec_is_empty())
    }

    /// Removes every subscription of client `client_id`, then drops the nodes left empty.
    pub fn remove(&mut self, client_id: &String)
        requires
            old(self).wf(),
        ensures
            final(self).wf(),
            final(self).pruned(),
            removed(*old(self), *final(self), client_id@),
            old(self).childrens@.len() == 0 ==> final(self).childrens@.len() == 0,
            old(self).wildcard_single is None ==> final(self).wildcard_single is None,
            old(self).wildcard_multi is None ==> final(self).wildcard_multi is None,
        decreases *old(self),
    {
        remove_sub(&mut self.subscribers, client_id);
        if let Some(mut child) = self.wildcard_single.take() {
            let ghost before = *child;
            child.remove(client_id);
            if !child.is_empty() {
                self.wildcard_single = Some(child);
            } else {
                proof {
                    assert forall|h: Seq<Seq<u8>>, d: Seq<char>| d != client_id@ implies #[trigger] before.stored(h, d) is None by {
                        lemma_empty_stores_nothing(*child, h, d);
                        assert(child.stored(h, d) == before.stored(h, d));
                    }
                }
            }
        }
        if let Some(mut child) = self.wildcard_multi.take() {
            let ghost before = *child;
            child.remove(client_id);
            if !child.is_empty() {
                self.wildcard_multi = Some(child);
            } else {
                proof {
                    assert forall|h: Seq<Seq<u8>>, d: Seq<char>| d != client_id@ implies #[trigger] before.stored(h, d) is None by {
                        lemma_empty_stores_nothing(*child, h, d);
                        assert(child.stored(h, d) == before.stored(h, d));
                    }
                }
            }
        }
        let ghost single_after = self.wildcard_single;
        let ghost multi_after = self.wildcard_multi;
        assert(single_after matches Some(n) ==> n.pruned() && !n.spec_is_empty());
        assert(multi_after matches Some(n) ==> n.pruned() && !n.spec_is_empty());
        let mut old_children: Vec<(Vec<u8>, TopicNode)> = Vec::new();
        std::mem::swap(&mut old_children, &mut self.childrens);
        let ghost orig = old_children@;
        let ghost mut src: Seq<int> = Seq::empty();
        while old_children.len() > 0
            invariant
                old(self).wf(),
                orig == old(self).childrens@,
                self.wildcard_single == single_after,
                self.wildcard_multi == multi_after,
                sub_keys_distinct(self.subscribers@),
                old_children@ == orig.take(old_children@.len() as int),
                old_children@.len() <= orig.len(),
                self.childrens@.len() + old_children@.len() <= orig.len(),
                src.len() == self.childrens@.len(),
                pairs_map(self.subscribers@) == pairs_map(old(self).subscribers@).remove(client_id@),
                forall|a: int| 0 <= a < self.childrens@.len() ==> {
                    &&& old_children@.len() <= #[trigger] src[a] < orig.len()
                    &&& self.childrens@[a].0@ == orig[src[a]].0@
                    &&& removed(orig[src[a]].1, self.childrens@[a].1, client_id@)
                    &&& self.childrens@[a].1.wf()
                    &&& self.childrens@[a].1.pruned()
                    &&& !self.childrens@[a].1.spec_is_empty()
                },
                forall|b: int| #![trigger orig[b]] old_children@.len() <= b < orig.len() ==> src.contains(b) || holds_only(orig[b].1, client_id@),
                forall|a1: int, a2: int| 0 <= a1 < a2 < src.len() ==> src[a1] != src[a2],
            decreases old_children@.len(),
        {
            let ghost m = old_children@.len() as int;
            let (level, mut child) = old_children.pop().unwrap();
            proof {
                assert(orig[m - 1] == (level, child));
                assert(old_children@ =~= orig.take(m - 1));
                assert(!is_plus(orig[m - 1].0@));
            }
            let ghost before = child;
            child.remove(client_id);
            if !child.is_empty() {
                self.childrens.push((level, child));
                proof {
                    let old_src = src;
                    src = src.push(m - 1);
                    assert(src[old_src.len() as int] == m - 1);
                    assert forall|b: int| #![trigger orig[b]] old_children@.len() <= b < orig.len() && old_src.contains(b) implies src.contains(b) by {
                        let a = choose|a: int| 0 <= a < old_src.len() && old_src[a] == b;
                        assert(src[a] == b);
                    }
                }
            } else {
                proof {
                    assert forall|h: Seq<Seq<u8>>, d: Seq<char>| d != client_id@ implies #[trigger] before.stored(h, d) is None by {
                        lemma_empty_stores_nothing(child, h, d);
                        assert(child.stored(h, d) == before.stored(h, d));
                    }
                }
            }
        }
        proof {
            assert forall|i: int, j: int| 0 <= i < j < self.childrens@.len() implies self.childrens@[i].0@ != self.childrens@[j].0@ by {
                assert(src[i] != src[j]);
            }
            assert forall|i: int| 0 <= i < self.childrens@.len() implies !is_plus(#[trigger] self.childrens@[i].0@)
                && !is_hash(self.childrens@[i].0@) && self.childrens@[i].1.wf() by {
                assert(!is_plus(orig[src[i]].0@));
            }
            assert forall|i: int| #![trigger self.childrens@[i]] 0 <= i < self.childrens@.len() implies self.childrens@[i].1.pruned()
                && !self.childrens@[i].1.spec_is_empty() by {
                assert(old_children@.len() <= src[i]);
            }
            assert(self.wildcard_single matches Some(n) ==> n.pruned() && !n.spec_is_empty());
            assert(self.wildcard_multi matches Some(n) ==> n.pruned() && !n.spec_is_empty());
            let new_children = self.childrens@;
            assert forall|g: Seq<Seq<u8>>, d: Seq<char>| g.len() > 0 && !is_plus(g[0]) && !is_hash(g[0]) implies
                #[trigger] self.stored(g, d) == if d == client_id@ { None } else { old(self).stored(g, d) } by {
                let s2 = g[0];
                let h = g.drop_first();
                lemma_child_index(new_children, s2);
                lemma_child_index(orig, s2);
                let a = child_index(new_children, s2);
                let b = child_index(orig, s2);
                if a >= 0 {
                    let b2 = src[a];
                    assert(orig[b2].0@ == s2);
                    lemma_child_index_distinct(orig, s2, b2);
                    assert(removed(orig[b2].1, new_children[a].1, client_id@));
                    assert(new_children[a].1.stored(h, d) == if d == client_id@ { None } else { orig[b2].1.stored(h, d) });
                } else if b >= 0 {
                    if src.contains(b) {
                        let a2 = choose|a2: int| 0 <= a2 < src.len() && src[a2] == b;
                        assert(new_children[a2].0@ == s2);
                        assert(false);
                    }
                    assert(holds_only(orig[b].1, client_id@));
                    if d != client_id@ {
                        assert(orig[b].1.stored(h, d) is None);
                    }
                }
            }
        }
        proof {
            assert forall|g: Seq<Seq<u8>>, d: Seq<char>| #[trigger] self.stored(g, d) == if d == client_id@ { None } else { old(self).stored(g, d) } by {
                if g.len() == 0 {
                    assert(self.subscriber_map() == old(self).subscriber_map().remove(client_id@));
                    assert(self.stored(g, d) == if d == client_id@ { None } else { old(self).stored(g, d) });
                } else if is_plus(g[0]) {
                    let h = g.drop_first();
                    if let Some(n) = old(self).wildcard_single {
                        if self.wildcard_single is None {
                            if d != client_id@ {
                                assert(n.stored(h, d) is None);
                            }
                        } else {
                            let m = self.wildcard_single->0;
                            assert(removed(*n, *m, client_id@));
                            assert(m.stored(h, d) == if d == client_id@ { None } else { n.stored(h, d) });
                        }
                    }
                    assert(self.stored(g, d) == if d == client_id@ { None } else { old(self).stored(g, d) });
                } else if is_hash(g[0]) {
                    let h = g.drop_first();
                    if let Some(n) = old(self).wildcard_multi {
                        if self.wildcard_multi is None {
                            if d != client_id@ {
                                assert(n.stored(h, d) is None);
                            }
                        } else {
                            let m = self.wildcard_multi->0;
                            assert(removed(*n, *m, client_id@));
                            assert(m.stored(h, d) == if d == client_id@ { None } else { n.stored(h, d) });
                        }
                    }
                    assert(self.stored(g, d) == if d == client_id@ { None } else { old(self).stored(g, d) });
                } else {
                    assert(g.len() > 0 && !is_plus(g[0]) && !is_hash(g[0]));
                    assert(self.stored(g, d) == if d == client_id@ { None } else { old(self).stored(g, d) });
                }
            }
        }
    }
}

} // verus!

verus! {

/// A subscriber found by a lookup is subscribed, with the subscription found, to a filter
/// that matches the topic.
proof fn lemma_collect_sound(n: TopicNode, t: Seq<Seq<u8>>, c: Seq<char>) -> (f: Seq<Seq<u8>>)
    requires
        n.wf(),
        t.len() >= 1,
        n.collect(t).dom().contains(c),
    ensures
        n.stored(f, c) == Some(n.collect(t)[c]),
        filter_matches(f, t),
    decreases n,
{
    let t0 = t[0];
    let tr = t.drop_first();
    let i = child_index(n.childrens@, t0);
    lemma_child_index(n.childrens@, t0);
    let hash = seq![35u8];
    let plus = seq![43u8];
    let v = n.collect(t)[c];
    if 0 <= i < n.childrens@.len() {
        assert(!is_plus(n.childrens@[i].0@));
    }
    let child_map = if 0 <= i < n.childrens@.len() {
        if t.len() > 1 {
            n.childrens@[i].1.collect(tr)
        } else {
            n.childrens@[i].1.subscriber_map().union_prefer_right(n.childrens@[i].1.multi_map())
        }
    } else {
        Map::empty()
    };
    if child_map.dom().contains(c) {
        let child = n.childrens@[i].1;
        assert(!is_plus(t0) && !is_hash(t0));
        assert(n.collect(t)[c] == child_map[c]);
        if t.len() > 1 {
            let fr = lemma_collect_sound(child, tr, c);
            let f = seq![t0] + fr;
            assert(f.drop_first() =~= fr);
            return f;
        } else if child.multi_map().dom().contains(c) {
            let f = seq![t0, hash];
            let m = child.wildcard_multi->0;
            assert(f.drop_first() =~= seq![hash]);
            assert(seq![hash].drop_first() =~= Seq::<Seq<u8>>::empty());
            assert(tr =~= Seq::<Seq<u8>>::empty());
            assert(filter_matches(seq![hash], tr));
            assert(m.stored(Seq::empty(), c) == Some(child_map[c]));
            assert(child.stored(seq![hash], c) == Some(child_map[c]));
            return f;
        } else {
            let f = seq![t0];
            assert(f.drop_first() =~= Seq::<Seq<u8>>::empty());
            assert(tr =~= Seq::<Seq<u8>>::empty());
            assert(child.stored(Seq::empty(), c) == Some(child_map[c]));
            assert(filter_matches(Seq::<Seq<u8>>::empty(), tr));
            return f;
        }
    }
    let single_map = match n.wildcard_single {
        Some(s) => if t.len() > 1 {
            s.collect(tr)
        } else {
            s.subscriber_map().union_prefer_right(s.multi_map())
        },
        None => Map::empty(),
    };
    if single_map.dom().contains(c) {
        let s = n.wildcard_single->0;
        assert(is_plus(plus) && !is_hash(plus)) by {
            assert(plus[0] == 43);
        }
        assert(n.collect(t)[c] == single_map[c]);
        if t.len() > 1 {
            let fr = lemma_collect_sound(*s, tr, c);
            let f = seq![plus] + fr;
            assert(f.drop_first() =~= fr);
            return f;
        } else if s.multi_map().dom().contains(c) {
            let f = seq![plus, hash];
            let m = s.wildcard_multi->0;
            assert(f.drop_first() =~= seq![hash]);
            assert(seq![hash].drop_first() =~= Seq::<Seq<u8>>::empty());
            assert(tr =~= Seq::<Seq<u8>>::empty());
            assert(filter_matches(seq![hash], tr));
            assert(m.stored(Seq::empty(), c) == Some(single_map[c]));
            assert(s.stored(seq![hash], c) == Some(single_map[c]));
            return f;
        } else {
            let f = seq![plus];
            assert(f.drop_first() =~= Seq::<Seq<u8>>::empty());
            assert(tr =~= Seq::<Seq<u8>>::empty());
            assert(s.stored(Seq::empty(), c) == Some(single_map[c]));
            assert(filter_matches(Seq::<Seq<u8>>::empty(), tr));
            return f;
        }
    }
    let f = seq![hash];
    assert(f.drop_first() =~= Seq::<Seq<u8>>::empty());
    assert(is_hash(hash) && !is_plus(hash)) by {
        assert(hash[0] == 35);
    }
    assert(n.collect(t)[c] == n.multi_map()[c]);
    let m = n.wildcard_multi->0;
    assert(m.stored(Seq::empty(), c) == Some(n.multi_map()[c]));
    f
}

/// A subscriber of a filter that matches the topic is found by a lookup.
proof fn lemma_collect_complete(n: TopicNode, t: Seq<Seq<u8>>, f: Seq<Seq<u8>>, c: Seq<char>)
    requires
        n.wf(),
        t.len() >= 1,
        n.stored(f, c) is Some,
        filter_matches(f, t),
    ensures
        n.collect(t).dom().contains(c),
    decreases n,
{
    let t0 = t[0];
    let tr = t.drop_first();
    let fr = f.drop_first();
    lemma_child_index(n.childrens@, t0);
    assert(f.len() >= 1);
    if is_hash(f[0]) {
        let m = n.wildcard_multi->0;
        assert(!is_plus(f[0])) by {
            assert(f[0][0] == 35);
        }
        assert(m.stored(fr, c) is Some);
        assert(fr.len() == 0);
        assert(n.multi_map().dom().contains(c));
    } else if is_plus(f[0]) {
        let s = n.wildcard_single->0;
        assert(s.stored(fr, c) is Some);
        assert(filter_matches(fr, tr));
        if t.len() > 1 {
            lemma_collect_complete(*s, tr, fr, c);
        } else if fr.len() == 0 {
            assert(s.subscriber_map().dom().contains(c));
        } else {
            assert(tr.len() == 0);
            assert(is_hash(fr[0]));
            assert(!is_plus(fr[0])) by {
                assert(fr[0][0] == 35);
            }
            let m = s.wildcard_multi->0;
            assert(m.stored(fr.drop_first(), c) is Some);
            assert(s.multi_map().dom().contains(c));
        }
    } else {
        assert(f[0] == t0);
        let i = child_index(n.childrens@, t0);
        let child = n.childrens@[i].1;
        assert(child.stored(fr, c) is Some);
        assert(filter_matches(fr, tr));
        if t.len() > 1 {
            lemma_collect_complete(child, tr, fr, c);
        } else if fr.len() == 0 {
            assert(child.subscriber_map().dom().contains(c));
        } else {
            assert(tr.len() == 0);
            assert(is_hash(fr[0]));
            assert(!is_plus(fr[0])) by {
                assert(fr[0][0] == 35);
            }
            let m = child.wildcard_multi->0;
            assert(m.stored(fr.drop_first(), c) is Some);
            assert(child.multi_map().dom().contains(c));
        }
    }
}

/// What a lookup finds: a client is found for a topic exactly when it is subscribed to a
/// filter that matches the topic, and the subscription found is one of its subscriptions
/// to such a filter.
pub proof fn law_match_finds_matching_subscribers(tree: TopicNode, t: Seq<Seq<u8>>, c: Seq<char>)
    requires
        tree.wf(),
        t.len() >= 1,
    ensures
        tree.collect(t).dom().contains(c) <==> exists|f: Seq<Seq<u8>>|
            #[trigger] tree.stored(f, c) is Some && filter_matches(f, t),
        tree.collect(t).dom().contains(c) ==> exists|f: Seq<Seq<u8>>|
            #[trigger] tree.stored(f, c) == Some(tree.collect(t)[c]) && filter_matches(f, t),
{
    if tree.collect(t).dom().contains(c) {
        let f = lemma_collect_sound(tree, t, c);
        assert(tree.stored(f, c) is Some);
    }
    if exists|f: Seq<Seq<u8>>| #[trigger] tree.stored(f, c) is Some && filter_matches(f, t) {
        let f = choose|f: Seq<Seq<u8>>| #[trigger] tree.stored(f, c) is Some && filter_matches(f, t);
        lemma_collect_complete(tree, t, f, c);
    }
}

/// A pruned tree is empty exactly when it stores no subscription.
pub proof fn law_pruned_empty_iff_no_subscription(tree: TopicNode)
    requires
        tree.wf(),
        tree.pruned(),
    ensures
        tree.spec_is_empty() <==> forall|f: Seq<Seq<u8>>, c: Seq<char>| #[trigger] tree.stored(f, c) is None,
    decreases tree,
{
    if tree.spec_is_empty() {
        assert forall|f: Seq<Seq<u8>>, c: Seq<char>| #[trigger] tree.stored(f, c) is None by {
            lemma_empty_stores_nothing(tree, f, c);
        }
    } else {
        let (f, c) = lemma_nonempty_stores(tree);
        assert(tree.stored(f, c) is Some);
    }
}

/// A pruned node that is not empty stores some subscription.
proof fn lemma_nonempty_stores(n: TopicNode) -> (r: (Seq<Seq<u8>>, Seq<char>))
    requires
        n.wf(),
        n.pruned(),
        !n.spec_is_empty(),
    ensures
        n.stored(r.0, r.1) is Some,
    decreases n,
{
    if n.subscribers@.len() > 0 {
        let c = n.subscribers@[0].0@;
        lemma_sub_index(n.subscribers@, c);
        (Seq::empty(), c)
    } else if n.childrens@.len() > 0 {
        let child = n.childrens@[0].1;
        let key = n.childrens@[0].0@;
        assert(!is_plus(key) && !is_hash(key));
        lemma_child_index_distinct(n.childrens@, key, 0);
        let (fr, c) = lemma_nonempty_stores(child);
        let f = seq![key] + fr;
        assert(f.drop_first() =~= fr);
        (f, c)
    } else if n.wildcard_single is Some {
        let s = n.wildcard_single->0;
        let plus = seq![43u8];
        assert(!is_hash(plus)) by {
            assert(plus[0] == 43);
        }
        let (fr, c) = lemma_nonempty_stores(*s);
        let f = seq![plus] + fr;
        assert(f.drop_first() =~= fr);
        (f, c)
    } else {
        let m = n.wildcard_multi->0;
        let hash = seq![35u8];
        assert(!is_plus(hash)) by {
            assert(hash[0] == 35);
        }
        let (fr, c) = lemma_nonempty_stores(*m);
        assert(fr.len() == 0);
        let f = seq![hash];
        assert(f.drop_first() =~= fr);
        (f, c)
    }
}

} // verus!

verus! {

/// What removing the subscription of client `c` to the filter `f` does to what is stored:
/// it is gone and nothing else changes.
pub open spec fn unsubscribed(
    old_stored: spec_fn(Seq<Seq<u8>>, Seq<char>) -> Option<ClientSubscription>,
    new_stored: spec_fn(Seq<Seq<u8>>, Seq<char>) -> Option<ClientSubscription>,
    f: Seq<Seq<u8>>,
    c: Seq<char>,
) -> bool {
    forall|g: Seq<Seq<u8>>, d: Seq<char>|
        #[trigger] new_stored(g, d) == if g == f && d == c {
            None
        } else {
            old_stored(g, d)
        }
}

/// Removing below the child of the first level `f[0]` removes under `f` in the parent.
proof fn lemma_unsubscribe_child(
    o: TopicNode,
    n: TopicNode,
    j: int,
    before: TopicNode,
    f: Seq<Seq<u8>>,
    c: Seq<char>,
)
    requires
        n.subscribers == o.subscribers,
        n.wildcard_single == o.wildcard_single,
        n.wildcard_multi == o.wildcard_multi,
        f.len() >= 1,
        !is_plus(f[0]),
        !is_hash(f[0]),
        n.childrens@.len() == o.childrens@.len(),
        0 <= j < n.childrens@.len(),
        child_index(o.childrens@, f[0]) == j,
        o.childrens@[j].1 == before,
        n.childrens@[j].0@ == o.childrens@[j].0@,
        forall|k: int| 0 <= k < n.childrens@.len() && k != j ==> #[trigger] n.childrens@[k] == o.childrens@[k],
        unsubscribed(before.stored_fn(), n.childrens@[j].1.stored_fn(), f.drop_first(), c),
    ensures
        unsubscribed(o.stored_fn(), n.stored_fn(), f, c),
{
    let fr = f.drop_first();
    assert forall|s2: Seq<u8>| #![auto] child_index(n.childrens@, s2) == child_index(o.childrens@, s2) by {
        lemma_child_index_same_keys(n.childrens@, o.childrens@, s2);
    }
    assert forall|g: Seq<Seq<u8>>, d: Seq<char>| #[trigger] n.stored_fn()(g, d) == if g == f && d == c {
        None
    } else {
        o.stored_fn()(g, d)
    } by {
        lemma_child_index(o.childrens@, g[0]);
        if g.len() > 0 && !is_plus(g[0]) && !is_hash(g[0]) {
            let k = child_index(o.childrens@, g[0]);
            if k == j {
                let h = g.drop_first();
                lemma_child_index(o.childrens@, f[0]);
                assert(g[0] == f[0]);
                assert(n.stored(g, d) == n.childrens@[j].1.stored(h, d));
                assert(n.childrens@[j].1.stored_fn()(h, d) == n.childrens@[j].1.stored(h, d));
                assert(before.stored_fn()(h, d) == before.stored(h, d));
                lemma_first_rest(g, f);
            } else if k >= 0 {
                assert(n.childrens@[k] == o.childrens@[k]);
            }
        } else if g == f {
            assert(g[0] == f[0]);
        }
    }
}

impl TopicNode {
    /// Removes the subscription of client `client_id` to the topic filter `path`, if any.
    pub fn unsubscribe(&mut self, path: &str, client_id: &String)
        requires
            old(self).wf(),
        ensures
            final(self).wf(),
            unsubscribed(old(self).stored_fn(), final(self).stored_fn(), topic_levels(path@), client_id@),
    {
        self.unsubscribe_levels(path.as_bytes(), client_id);
    }

    /// Removes a subscriber of this node.
    fn drop_here(&mut self, client_id: &String)
        requires
            old(self).wf(),
        ensures
            final(self).wf(),
            unsubscribed(old(self).stored_fn(), final(self).stored_fn(), Seq::empty(), client_id@),
            final(self).childrens == old(self).childrens,
            final(self).wildcard_single == old(self).wildcard_single,
            final(self).wildcard_multi == old(self).wildcard_multi,
    {
        remove_sub(&mut self.subscribers, client_id);
        assert forall|g: Seq<Seq<u8>>, d: Seq<char>| #[trigger] self.stored_fn()(g, d) == if g == Seq::<Seq<u8>>::empty() && d == client_id@ {
            None
        } else {
            old(self).stored_fn()(g, d)
        } by {
            if g.len() == 0 {
                assert(g =~= Seq::<Seq<u8>>::empty());
            }
        }
    }

    /// Removes below this node under the levels of `path`.
    fn unsubscribe_levels(&mut self, path: &[u8], client_id: &String)
        requires
            old(self).wf(),
        ensures
            final(self).wf(),
            unsubscribed(old(self).stored_fn(), final(self).stored_fn(), levels(path@), client_id@),
        decreases path@.len(),
    {
        let ghost f = levels(path@);
        let ghost key = client_id@;
        let (segment, rest) = split_level(path);
        proof {
            assert(f[0] == segment@);
        }
        if is_plus_bytes(segment) {
            let mut node = match self.wildcard_single.take() {
                Some(b) => *b,
                None => {
                    proof {
                        assert forall|g: Seq<Seq<u8>>, d: Seq<char>| #[trigger] self.stored_fn()(g, d) == if g == f && d == key {
                            None
                        } else {
                            old(self).stored_fn()(g, d)
                        } by {
                            if g == f {
                                assert(is_plus(g[0]));
                            }
                        }
                    }
                    return;
                },
            };
            let ghost before = node;
            match rest {
                Some(r) => node.unsubscribe_levels(r, client_id),
                None => {
                    node.drop_here(client_id);
                    assert(f.drop_first() =~= Seq::<Seq<u8>>::empty());
                },
            }
            self.wildcard_single = Some(Box::new(node));
            proof {
                assert forall|g: Seq<Seq<u8>>, d: Seq<char>| #[trigger] self.stored_fn()(g, d) == if g == f && d == key {
                    None
                } else {
                    old(self).stored_fn()(g, d)
                } by {
                    if g.len() > 0 && is_plus(g[0]) {
                        let h = g.drop_first();
                        assert(self.stored(g, d) == node.stored(h, d));
                        assert(node.stored_fn()(h, d) == node.stored(h, d));
                        assert(before.stored_fn()(h, d) == before.stored(h, d));
                        lemma_first_rest(g, f);
                    } else if g == f {
                        assert(is_plus(g[0]));
                    }
                }
            }
        } else if is_hash_bytes(segment) {
            if rest.is_some() {
                proof {
                    assert forall|g: Seq<Seq<u8>>, d: Seq<char>| #[trigger] self.stored_fn()(g, d) == if g == f && d == key {
                        None
                    } else {
                        old(self).stored_fn()(g, d)
                    } by {
                        if g == f {
                            assert(is_hash(g[0]) && g.len() > 1);
                            assert(!is_plus(g[0])) by {
                                assert(g[0][0] == 35);
                            }
                        }
                    }
                }
                return;
            }
            let mut node = match self.wildcard_multi.take() {
                Some(b) => *b,
                None => {
                    proof {
                        assert forall|g: Seq<Seq<u8>>, d: Seq<char>| #[trigger] self.stored_fn()(g, d) == if g == f && d == key {
                            None
                        } else {
                            old(self).stored_fn()(g, d)
                        } by {
                            if g == f {
                                assert(!is_plus(g[0])) by {
                                    assert(g[0][0] == 35);
                                }
                            }
                        }
                    }
                    return;
                },
            };
            let ghost before = node;
            node.drop_here(client_id);
            self.wildcard_multi = Some(Box::new(node));
            proof {
                assert forall|g: Seq<Seq<u8>>, d: Seq<char>| #[trigger] self.stored_fn()(g, d) == if g == f && d == key {
                    None
                } else {
                    old(self).stored_fn()(g, d)
                } by {
                    if g.len() == 1 && is_hash(g[0]) {
                        let h = g.drop_first();
                        assert(h =~= Seq::<Seq<u8>>::empty());
                        assert(g =~= f);
                        assert(!is_plus(g[0])) by {
                            assert(g[0][0] == 35);
                        }
                        assert(node.stored_fn()(h, d) == node.stored(h, d));
                        assert(before.stored_fn()(h, d) == before.stored(h, d));
                    } else if g == f {
                        assert(is_hash(g[0]));
                    }
                }
            }
        } else {
            let found = find_child(&self.childrens, segment);
            proof {
                lemma_child_index(self.childrens@, segment@);
            }
            match found {
                Some(j) => {
                    let ghost old_children = self.childrens@;
                    let (level, mut node) = self.childrens.remove(j);
                    let ghost before = node;
                    match rest {
                        Some(r) => node.unsubscribe_levels(r, client_id),
                        None => {
                            node.drop_here(client_id);
                            assert(f.drop_first() =~= Seq::<Seq<u8>>::empty());
                        },
                    }
                    let ghost entry = (level, node);
                    self.childrens.insert(j, (level, node));
                    proof {
                        assert(self.childrens@ =~= old_children.update(j as int, entry));
                        lemma_unsubscribe_child(*old(self), *self, j as int, before, f, key);
                    }
                },
                None => {
                    proof {
                        assert forall|g: Seq<Seq<u8>>, d: Seq<char>| #[trigger] self.stored_fn()(g, d) == if g == f && d == key {
                            None
                        } else {
                            old(self).stored_fn()(g, d)
                        } by {
                            if g == f {
                                assert(child_index(self.childrens@, g[0]) == -1);
                            }
                        }
                    }
                },
            }
        }
    }
}

} // verus!
