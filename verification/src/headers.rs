//! Request headers: a case-insensitive map from header names to values,
//! read the way `HeaderMap::get(..).to_str()` reads them.
use vstd::prelude::*;
use crate::text::{
    before_char, before_char_exec, chars_of, lower_spec, seq_eq, string_from_chars, to_ascii_lower,
    trim, trim_spec,
};

verus! {

/// A header value can be read as text when it holds only visible ASCII
/// characters or tabs (`HeaderValue::to_str`).
pub open spec fn visible_ascii(s: Seq<char>) -> bool {
    forall|i: int| 0 <= i < s.len() ==> (#[trigger] s[i] == '\t' || (' ' <= s[i] && s[i] <= '~'))
}

/// Index of the first entry with the given name.
pub open spec fn entry_index(e: Seq<(Seq<char>, Seq<char>)>, name: Seq<char>) -> Option<int>
    decreases e.len(),
{
    if e.len() == 0 {
        None
    } else if e[0].0 == name {
        Some(0)
    } else {
        match entry_index(e.drop_first(), name) {
            Some(i) => Some(i + 1),
            None => None,
        }
    }
}

pub proof fn lemma_entry_index(e: Seq<(Seq<char>, Seq<char>)>, name: Seq<char>)
    ensures
        match entry_index(e, name) {
            Some(i) => 0 <= i < e.len() && e[i].0 == name && forall|k: int|
                0 <= k < i ==> e[k].0 != name,
            None => forall|k: int| 0 <= k < e.len() ==> e[k].0 != name,
        },
    decreases e.len(),
{
    if e.len() > 0 && e[0].0 != name {
        let d = e.drop_first();
        lemma_entry_index(d, name);
        match entry_index(d, name) {
            Some(i) => {
                assert forall|k: int| 0 <= k < i + 1 implies e[k].0 != name by {
                    if k > 0 {
                        assert(e[k] == d[k - 1]);
                    }
                }
            },
            None => {
                assert forall|k: int| 0 <= k < e.len() implies e[k].0 != name by {
                    if k > 0 {
                        assert(e[k] == d[k - 1]);
                    }
                }
            },
        }
    }
}

pub proof fn lemma_entry_index_unique(e: Seq<(Seq<char>, Seq<char>)>, name: Seq<char>, i: int)
    requires
        0 <= i <= e.len(),
        forall|k: int| 0 <= k < i ==> e[k].0 != name,
        i < e.len() ==> e[i].0 == name,
    ensures
        entry_index(e, name) == (if i < e.len() {
            Some(i)
        } else {
            None::<int>
        }),
{
    lemma_entry_index(e, name);
}

/// Headers of one request. Names are stored in ASCII lowercase.
pub struct RequestHeaders {
    entries: Vec<(String, String)>,
}

impl View for RequestHeaders {
    type V = Seq<(Seq<char>, Seq<char>)>;

    closed spec fn view(&self) -> Seq<(Seq<char>, Seq<char>)> {
        Seq::new(self.entries@.len(), |i: int| (self.entries@[i].0@, self.entries@[i].1@))
    }
}

/// The raw value stored under a name (compared case-insensitively).
pub open spec fn header_raw(h: Seq<(Seq<char>, Seq<char>)>, name: Seq<char>) -> Option<Seq<char>> {
    match entry_index(h, lower_spec(name)) {
        Some(i) => Some(h[i].1),
        None => None,
    }
}

/// `headers.get(name).and_then(|v| v.to_str().ok())`.
pub open spec fn header_str(h: Seq<(Seq<char>, Seq<char>)>, name: Seq<char>) -> Option<Seq<char>> {
    match header_raw(h, name) {
        Some(v) => if visible_ascii(v) {
            Some(v)
        } else {
            None
        },
        None => None,
    }
}

fn string_eq(a: &String, b: &Vec<char>) -> (r: bool)
    ensures
        r == (a@ == b@),
{
    let av = chars_of(a.as_str());
    seq_eq(&av, b)
}

impl RequestHeaders {
    /// No headers.
    pub fn new() -> (h: Self)
        ensures
            h@ == Seq::<(Seq<char>, Seq<char>)>::empty(),
    {
        let h = RequestHeaders { entries: Vec::new() };
        assert(h@ =~= Seq::<(Seq<char>, Seq<char>)>::empty());
        h
    }

    /// Sets a header, replacing the value of an earlier header of the same
    /// name (`HeaderMap::insert`).
    pub fn insert(&mut self, name: &str, value: &str)
        ensures
            header_raw(final(self)@, name@) == Some(value@),
            forall|other: Seq<char>|
                lower_spec(other) != lower_spec(name@) ==> header_raw(final(self)@, other)
                    == header_raw(old(self)@, other),
    {
        let lname = to_ascii_lower(&chars_of(name));
        let ghost old_view = self@;
        let mut i: usize = 0;
        while i < self.entries.len()
            invariant
                i <= self.entries@.len(),
                self@ == old_view,
                old_view == old(self)@,
                lname@ == lower_spec(name@),
                forall|k: int| 0 <= k < i ==> (#[trigger] self@[k]).0 != lname@,
            decreases self.entries.len() - i,
        {
            if string_eq(&self.entries[i].0, &lname) {
                let key = string_from_chars(&lname);
                self.entries.set(i, (key, String::from_str(value)));
                proof {
                    Self::lemma_replaced(old_view, self@, i as int, lname@, value@);
                    assert forall|other: Seq<char>|
                        lower_spec(other) != lower_spec(name@) implies header_raw(self@, other)
                        == header_raw(old_view, other) by {
                        let lo = lower_spec(other);
                        assert(entry_index(self@, lo) == entry_index(old_view, lo));
                    }
                }
                return ;
            }
            i = i + 1;
        }
        let key = string_from_chars(&lname);
        self.entries.push((key, String::from_str(value)));
        proof {
            assert(self@ =~= old_view.push((lname@, value@)));
            Self::lemma_appended(old_view, self@, lname@, value@);
            assert forall|other: Seq<char>|
                lower_spec(other) != lower_spec(name@) implies header_raw(self@, other)
                == header_raw(old_view, other) by {
                let lo = lower_spec(other);
                assert(entry_index(self@, lo) == entry_index(old_view, lo));
            }
        }
    }

    proof fn lemma_replaced(
        pre: Seq<(Seq<char>, Seq<char>)>,
        post: Seq<(Seq<char>, Seq<char>)>,
        i: int,
        lname: Seq<char>,
        value: Seq<char>,
    )
        requires
            0 <= i < pre.len(),
            post.len() == pre.len(),
            pre[i].0 == lname,
            post[i] == (lname, value),
            forall|k: int| 0 <= k < pre.len() && k != i ==> post[k] == pre[k],
            forall|k: int| 0 <= k < i ==> (#[trigger] pre[k]).0 != lname,
        ensures
            entry_index(post, lname) == Some(i),
            forall|lo: Seq<char>|
                lo != lname ==> (#[trigger] entry_index(post, lo) == entry_index(pre, lo) && match entry_index(pre, lo) {
                    Some(j) => post[j].1 == pre[j].1,
                    None => true,
                }),
    {
        lemma_entry_index_unique(post, lname, i);
        assert forall|lo: Seq<char>| lo != lname implies (#[trigger] entry_index(post, lo) == entry_index(pre, lo) && match entry_index(pre, lo) {
                    Some(j) => post[j].1 == pre[j].1,
                    None => true,
                }) by {
            lemma_entry_index(pre, lo);
            match entry_index(pre, lo) {
                Some(j) => {
                    assert forall|k: int| 0 <= k < j implies post[k].0 != lo by {
                        if k != i {
                            assert(post[k] == pre[k]);
                        }
                    }
                    if j != i {
                        assert(post[j] == pre[j]);
                    }
                    lemma_entry_index_unique(post, lo, j);
                },
                None => {
                    assert forall|k: int| 0 <= k < post.len() implies post[k].0 != lo by {
                        if k != i {
                            assert(post[k] == pre[k]);
                        }
                    }
                    lemma_entry_index_unique(post, lo, post.len() as int);
                },
            }
        }
    }

    proof fn lemma_appended(
        pre: Seq<(Seq<char>, Seq<char>)>,
        post: Seq<(Seq<char>, Seq<char>)>,
        lname: Seq<char>,
        value: Seq<char>,
    )
        requires
            post == pre.push((lname, value)),
            forall|k: int| 0 <= k < pre.len() ==> (#[trigger] pre[k]).0 != lname,
        ensures
            entry_index(post, lname) == Some(pre.len() as int),
            forall|lo: Seq<char>|
                lo != lname ==> (#[trigger] entry_index(post, lo) == entry_index(pre, lo) && match entry_index(pre, lo) {
                    Some(j) => post[j].1 == pre[j].1,
                    None => true,
                }),
    {
        assert forall|k: int| 0 <= k < pre.len() implies #[trigger] post[k] == pre[k] by {}
        lemma_entry_index_unique(post, lname, pre.len() as int);
        assert forall|lo: Seq<char>| lo != lname implies (#[trigger] entry_index(post, lo) == entry_index(pre, lo) && match entry_index(pre, lo) {
                    Some(j) => post[j].1 == pre[j].1,
                    None => true,
                }) by {
            lemma_entry_index(pre, lo);
            match entry_index(pre, lo) {
                Some(j) => {
                    lemma_entry_index_unique(post, lo, j);
                },
                None => {
                    lemma_entry_index_unique(post, lo, post.len() as int);
                },
            }
        }
    }

    /// The value of a header as text, if present and readable
    /// (`headers.get(name).and_then(|v| v.to_str().ok())`).
    pub fn get_str(&self, name: &str) -> (r: Option<Vec<char>>)
        ensures
            match r {
                Some(v) => header_str(self@, name@) == Some(v@),
                None => header_str(self@, name@) is None,
            },
    {
        let lname = to_ascii_lower(&chars_of(name));
        let mut i: usize = 0;
        while i < self.entries.len()
            invariant
                i <= self.entries@.len(),
                lname@ == lower_spec(name@),
                forall|k: int| 0 <= k < i ==> (#[trigger] self@[k]).0 != lname@,
            decreases self.entries.len() - i,
        {
            if string_eq(&self.entries[i].0, &lname) {
                proof {
                    lemma_entry_index_unique(self@, lname@, i as int);
                }
                let v = chars_of(self.entries[i].1.as_str());
                assert(v@ == self@[i as int].1);
                let mut k: usize = 0;
                while k < v.len()
                    invariant
                        k <= v.len(),
                        i < self@.len(),
                        v@ == self@[i as int].1,
                        lname@ == lower_spec(name@),
                        entry_index(self@, lname@) == Some(i as int),
                        forall|j: int|
                            0 <= j < k ==> (#[trigger] v@[j] == '\t' || (' ' <= v@[j] && v@[j]
                                <= '~')),
                    decreases v.len() - k,
                {
                    let c = v[k];
                    if !(c == '\t' || (' ' <= c && c <= '~')) {
                        assert(!visible_ascii(v@));
                        return None;
                    }
                    k = k + 1;
                }
                return Some(v);
            }
            i = i + 1;
        }
        proof {
            lemma_entry_index_unique(self@, lname@, i as int);
        }
        None
    }

    /// Whether a header of that name is present (`headers.get(name).is_some()`).
    pub fn contains(&self, name: &str) -> (r: bool)
        ensures
            r == (header_raw(self@, name@) is Some),
    {
        let lname = to_ascii_lower(&chars_of(name));
        let mut i: usize = 0;
        while i < self.entries.len()
            invariant
                i <= self.entries@.len(),
                lname@ == lower_spec(name@),
                forall|k: int| 0 <= k < i ==> (#[trigger] self@[k]).0 != lname@,
            decreases self.entries.len() - i,
        {
            if string_eq(&self.entries[i].0, &lname) {
                proof {
                    lemma_entry_index_unique(self@, lname@, i as int);
                }
                return true;
            }
            i = i + 1;
        }
        proof {
            lemma_entry_index_unique(self@, lname@, i as int);
        }
        false
    }
}


/// The first comma-separated item of a header, trimmed, when not empty.
pub open spec fn forwarded_first(h: Seq<(Seq<char>, Seq<char>)>, name: Seq<char>) -> Option<Seq<char>> {
    match header_str(h, name) {
        Some(v) => {
            let t = trim_spec(before_char(v, ','));
            if t.len() > 0 {
                Some(t)
            } else {
                None
            }
        },
        None => None,
    }
}

/// The header's text, trimmed, when not empty.
pub open spec fn header_trimmed(h: Seq<(Seq<char>, Seq<char>)>, name: Seq<char>) -> Option<Seq<char>> {
    match header_str(h, name) {
        Some(v) => {
            let t = trim_spec(v);
            if t.len() > 0 {
                Some(t)
            } else {
                None
            }
        },
        None => None,
    }
}

/// The first comma-separated item of a header, trimmed, when not empty.
pub fn first_forwarded_value(headers: &RequestHeaders, name: &str) -> (r: Option<Vec<char>>)
    ensures
        match r {
            Some(v) => forwarded_first(headers@, name@) == Some(v@),
            None => forwarded_first(headers@, name@) is None,
        },
{
    match headers.get_str(name) {
        Some(v) => {
            let t = trim(&before_char_exec(&v, ','));
            if t.len() > 0 {
                Some(t)
            } else {
                None
            }
        },
        None => None,
    }
}

/// The header's text, trimmed, when not empty.
pub fn trimmed_header(headers: &RequestHeaders, name: &str) -> (r: Option<Vec<char>>)
    ensures
        match r {
            Some(v) => header_trimmed(headers@, name@) == Some(v@),
            None => header_trimmed(headers@, name@) is None,
        },
{
    match headers.get_str(name) {
        Some(v) => {
            let t = trim(&v);
            if t.len() > 0 {
                Some(t)
            } else {
                None
            }
        },
        None => None,
    }
}

} // verus!
