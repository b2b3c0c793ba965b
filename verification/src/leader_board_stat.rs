//! Leaderboard records: one entry per stored identity, and the list that a
//! snapshot reply carries. Ordering is a presentation step: the list is kept
//! unordered in the store and sorted descending by score only when shown.
use vstd::prelude::*;

verus! {

broadcast use vstd::seq_lib::group_to_multiset_ensures;

/// One leaderboard record: a display name, a short discriminator derived from
/// the score key, and the best score stored for that key.
#[derive(Debug)]
pub struct LeaderBoardEntry {
    pub username: String,
    pub discriminator: String,
    pub score: i32,
}

/// The ghost value of an entry: its texts as character sequences and its
/// score as a mathematical integer.
pub ghost struct EntryView {
    pub username: Seq<char>,
    pub discriminator: Seq<char>,
    pub score: int,
}

impl View for LeaderBoardEntry {
    type V = EntryView;

    open spec fn view(&self) -> EntryView {
        EntryView {
            username: self.username@,
            discriminator: self.discriminator@,
            score: self.score as int,
        }
    }
}

impl Clone for LeaderBoardEntry {
    fn clone(&self) -> (r: Self)
        ensures
            r == *self,
    {
        LeaderBoardEntry {
            username: self.username.clone(),
            discriminator: self.discriminator.clone(),
            score: self.score,
        }
    }
}

impl LeaderBoardEntry {
    pub fn new(username: String, score: i32, discriminator: String) -> (r: Self)
        ensures
            r.username == username,
            r.discriminator == discriminator,
            r.score == score,
    {
        LeaderBoardEntry { username, discriminator, score }
    }

    pub fn get_score(&self) -> (r: i32)
        ensures
            r == self.score,
    {
        self.score
    }
}

/// True when the entries are ordered by score, largest first.
pub open spec fn sorted_desc(s: Seq<LeaderBoardEntry>) -> bool {
    forall|i: int, j: int| 0 <= i < j < s.len() ==> s[i].score >= s[j].score
}

/// The list of entries a leaderboard snapshot carries, unordered until
/// `sort_list` is asked for the presentation order.
#[derive(Debug)]
pub struct LeaderBoardList {
    pub list: Vec<LeaderBoardEntry>,
}

impl View for LeaderBoardList {
    type V = Seq<EntryView>;

    open spec fn view(&self) -> Seq<EntryView> {
        self.list@.map_values(|e: LeaderBoardEntry| e@)
    }
}

impl Clone for LeaderBoardList {
    fn clone(&self) -> (r: Self)
        ensures
            r.list@ == self.list@,
    {
        let mut copy: Vec<LeaderBoardEntry> = Vec::new();
        let mut i: usize = 0;
        while i < self.list.len()
            invariant
                i <= self.list.len(),
                copy@ =~= self.list@.subrange(0, i as int),
            decreases self.list.len() - i,
        {
            copy.push(self.list[i].clone());
            i = i + 1;
        }
        assert(copy@ =~= self.list@);
        LeaderBoardList { list: copy }
    }
}

impl LeaderBoardList {
    pub fn new(list: Vec<LeaderBoardEntry>) -> (r: Self)
        ensures
            r.list == list,
    {
        LeaderBoardList { list }
    }

    pub fn get_list(&self) -> (r: &Vec<LeaderBoardEntry>)
        ensures
            r == &self.list,
    {
        &self.list
    }

    /// Reorders the entries descending by score; the collection of entries is
    /// unchanged.
    pub fn sort_list(&mut self)
        ensures
            final(self).list@.to_multiset() == old(self).list@.to_multiset(),
            sorted_desc(final(self).list@),
    {
        let sorted = sort_entries_desc(&self.list);
        self.list = sorted;
    }
}

/// Insertion sort, descending by score.
fn sort_entries_desc(v: &Vec<LeaderBoardEntry>) -> (r: Vec<LeaderBoardEntry>)
    ensures
        r@.to_multiset() == v@.to_multiset(),
        sorted_desc(r@),
{
    let mut r: Vec<LeaderBoardEntry> = Vec::new();
    let mut i: usize = 0;
    while i < v.len()
        invariant
            i <= v.len(),
            r@.to_multiset() == v@.subrange(0, i as int).to_multiset(),
            sorted_desc(r@),
        decreases v.len() - i,
    {
        let e = v[i].clone();
        let p = insert_position(&r, e.score);
        let ghost before = r@;
        r.insert(p, e);
        proof {
            before.insert_ensures(p as int, e);
            assert(v@.subrange(0, i + 1 as int) =~= v@.subrange(0, i as int).push(v@[i as int]));
        }
        i = i + 1;
    }
    proof {
        assert(v@.subrange(0, v@.len() as int) =~= v@);
    }
    r
}

/// The first index whose entry scores strictly below `score`; inserting there
/// keeps a descending list descending.
fn insert_position(r: &Vec<LeaderBoardEntry>, score: i32) -> (p: usize)
    requires
        sorted_desc(r@),
    ensures
        p <= r@.len(),
        forall|k: int| 0 <= k < p ==> r@[k].score >= score,
        forall|k: int| p <= k < r@.len() ==> r@[k].score < score,
{
    let mut p: usize = 0;
    while p < r.len() && r[p].score >= score
        invariant
            p <= r@.len(),
            sorted_desc(r@),
            forall|k: int| 0 <= k < p ==> r@[k].score >= score,
        decreases r@.len() - p,
    {
        p = p + 1;
    }
    p
}

} // verus!
