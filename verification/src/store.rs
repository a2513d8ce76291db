//! The staged key-value store: a committed layer and a staging layer of
//! pending writes and deletes. Reads resolve staging over committed; `commit`
//! checks the post-commit totals against the size limits before mutating
//! anything, so a rejected commit leaves the committed layer untouched.

use vstd::prelude::*;
use crate::limits::MAX_KEY_SIZE;
use crate::limits::MAX_VALUE_SIZE;
use crate::limits::MAX_TOTAL_SIZE;
use crate::limits::MAX_KEYS;
use crate::text::sbytes;
use crate::text::byte_length;
use crate::text::str_eq;
use crate::text::str_lt;
use crate::text::lex_lt;
use crate::text::lemma_lex_lt_trans;
use crate::text::lemma_lex_lt_connected;
use crate::glob::glob_ok;
use crate::glob::glob_selects;
use crate::glob::glob_regex;
use crate::glob::build_glob_regex;
use crate::glob::regex_compile_ok;
use crate::glob::regex_full_match;

verus! {

/// Why a `set` was rejected.
#[derive(Clone, Copy, Debug, PartialEq, Eq, Structural)]
pub enum SetError {
    KeyTooLarge,
    ValueTooLarge,
}

/// Why a key listing was rejected.
#[derive(Clone, Copy, Debug, PartialEq, Eq, Structural)]
pub enum PatternError {
    InvalidPattern,
}

/// Why a `commit` was rejected.
#[derive(Clone, Copy, Debug, PartialEq, Eq, Structural)]
pub enum CommitError {
    TotalSizeExceeded,
    TooManyKeys,
}

/// First value bound to a key in a committed entry list.
pub open spec fn find_c(s: Seq<(String, String)>, k: Seq<char>) -> Option<String>
    decreases s.len(),
{
    if s.len() == 0 {
        None
    } else if s[0].0@ == k {
        Some(s[0].1)
    } else {
        find_c(s.drop_first(), k)
    }
}

/// First delta bound to a key in a staging entry list: `Some(Some(v))` is a
/// pending write, `Some(None)` a pending delete, `None` no pending change.
pub open spec fn find_s(s: Seq<(String, Option<String>)>, k: Seq<char>) -> Option<Option<String>>
    decreases s.len(),
{
    if s.len() == 0 {
        None
    } else if s[0].0@ == k {
        Some(s[0].1)
    } else {
        find_s(s.drop_first(), k)
    }
}

/// No two committed entries share a key.
pub open spec fn distinct_c(s: Seq<(String, String)>) -> bool {
    forall|i: int, j: int| 0 <= i < j < s.len() ==> s[i].0@ != s[j].0@
}

/// No two staging entries share a key.
pub open spec fn distinct_s(s: Seq<(String, Option<String>)>) -> bool {
    forall|i: int, j: int| 0 <= i < j < s.len() ==> s[i].0@ != s[j].0@
}

/// Bytes a committed entry occupies: key length plus value length.
pub open spec fn entry_bytes(e: (String, String)) -> nat {
    sbytes(e.0@) + sbytes(e.1@)
}

/// Total bytes of a committed entry list.
pub open spec fn total_bytes(s: Seq<(String, String)>) -> nat
    decreases s.len(),
{
    if s.len() == 0 {
        0
    } else {
        entry_bytes(s[0]) + total_bytes(s.drop_first())
    }
}

/// The committed entries after applying staged overwrites and deletes to
/// them, in committed order.
pub open spec fn apply_st(
    c: Seq<(String, String)>,
    st: Seq<(String, Option<String>)>,
) -> Seq<(String, String)>
    decreases c.len(),
{
    if c.len() == 0 {
        Seq::empty()
    } else {
        let rest = apply_st(c.drop_first(), st);
        match find_s(st, c[0].0@) {
            Some(Some(v)) => seq![(c[0].0, v)] + rest,
            Some(None) => rest,
            None => seq![c[0]] + rest,
        }
    }
}

/// The staged writes whose keys are not committed, in staging order.
pub open spec fn new_entries(
    st: Seq<(String, Option<String>)>,
    c: Seq<(String, String)>,
) -> Seq<(String, String)>
    decreases st.len(),
{
    if st.len() == 0 {
        Seq::empty()
    } else {
        let rest = new_entries(st.drop_first(), c);
        match st[0].1 {
            Some(v) => if find_c(c, st[0].0@) is Some {
                rest
            } else {
                seq![(st[0].0, v)] + rest
            },
            None => rest,
        }
    }
}

/// The view of a committed lookup.
pub open spec fn view_c(o: Option<String>) -> Option<Seq<char>> {
    match o {
        Some(v) => Some(v@),
        None => None,
    }
}

/// The view of a staging lookup.
pub open spec fn view_s(o: Option<Option<String>>) -> Option<Option<Seq<char>>> {
    match o {
        Some(Some(v)) => Some(Some(v@)),
        Some(None) => Some(None),
        None => None,
    }
}

/// The view of an optional pattern argument.
pub open spec fn opt_str_view(o: Option<&str>) -> Option<Seq<char>> {
    match o {
        Some(p) => Some(p@),
        None => None,
    }
}

pub proof fn lemma_find_c_position(s: Seq<(String, String)>, k: Seq<char>)
    ensures
        find_c(s, k) is Some <==> exists|j: int| 0 <= j < s.len() && s[j].0@ == k,
    decreases s.len(),
{
    if s.len() > 0 {
        lemma_find_c_position(s.drop_first(), k);
        if s[0].0@ != k {
            if find_c(s, k) is Some {
                let j = choose|j: int| 0 <= j < s.drop_first().len() && s.drop_first()[j].0@ == k;
                assert(s[j + 1].0@ == k);
            }
            if exists|j: int| 0 <= j < s.len() && s[j].0@ == k {
                let j = choose|j: int| 0 <= j < s.len() && s[j].0@ == k;
                assert(s.drop_first()[j - 1].0@ == k);
            }
        }
    }
}

pub proof fn lemma_find_s_position(s: Seq<(String, Option<String>)>, k: Seq<char>)
    ensures
        find_s(s, k) is Some <==> exists|j: int| 0 <= j < s.len() && s[j].0@ == k,
    decreases s.len(),
{
    if s.len() > 0 {
        lemma_find_s_position(s.drop_first(), k);
        if s[0].0@ != k {
            if find_s(s, k) is Some {
                let j = choose|j: int| 0 <= j < s.drop_first().len() && s.drop_first()[j].0@ == k;
                assert(s[j + 1].0@ == k);
            }
            if exists|j: int| 0 <= j < s.len() && s[j].0@ == k {
                let j = choose|j: int| 0 <= j < s.len() && s[j].0@ == k;
                assert(s.drop_first()[j - 1].0@ == k);
            }
        }
    }
}

pub proof fn lemma_find_c_at(s: Seq<(String, String)>, k: Seq<char>, j: int)
    requires
        0 <= j < s.len(),
        s[j].0@ == k,
        forall|i: int| 0 <= i < j ==> s[i].0@ != k,
    ensures
        find_c(s, k) == Some(s[j].1),
    decreases j,
{
    if j > 0 {
        assert(forall|i: int| 0 <= i < j - 1 ==> s.drop_first()[i].0@ == s[i + 1].0@);
        lemma_find_c_at(s.drop_first(), k, j - 1);
        assert(s.drop_first()[j - 1] == s[j]);
    }
}

pub proof fn lemma_find_s_at(s: Seq<(String, Option<String>)>, k: Seq<char>, j: int)
    requires
        0 <= j < s.len(),
        s[j].0@ == k,
        forall|i: int| 0 <= i < j ==> s[i].0@ != k,
    ensures
        find_s(s, k) == Some(s[j].1),
    decreases j,
{
    if j > 0 {
        assert(forall|i: int| 0 <= i < j - 1 ==> s.drop_first()[i].0@ == s[i + 1].0@);
        lemma_find_s_at(s.drop_first(), k, j - 1);
        assert(s.drop_first()[j - 1] == s[j]);
    }
}

pub proof fn lemma_find_c_none(s: Seq<(String, String)>, k: Seq<char>)
    requires
        forall|i: int| 0 <= i < s.len() ==> s[i].0@ != k,
    ensures
        find_c(s, k) is None,
{
    lemma_find_c_position(s, k);
}

pub proof fn lemma_find_s_none(s: Seq<(String, Option<String>)>, k: Seq<char>)
    requires
        forall|i: int| 0 <= i < s.len() ==> s[i].0@ != k,
    ensures
        find_s(s, k) is None,
{
    lemma_find_s_position(s, k);
}

proof fn lemma_find_s_update(s: Seq<(String, Option<String>)>, j: int, e: (String, Option<String>))
    requires
        0 <= j < s.len(),
        s[j].0@ == e.0@,
        forall|i: int| 0 <= i < j ==> s[i].0@ != e.0@,
    ensures
        forall|k: Seq<char>| find_s(s.update(j, e), k) == (if k == e.0@ {
            Some(e.1)
        } else {
            find_s(s, k)
        }),
    decreases j,
{
    let t = s.update(j, e);
    if j == 0 {
        assert(t[0] == e);
        assert(t.drop_first() =~= s.drop_first());
        assert forall|k: Seq<char>|
            find_s(t, k) == (if k == e.0@ {
                Some(e.1)
            } else {
                find_s(s, k)
            }) by {
            if k != e.0@ {
                assert(find_s(t, k) == find_s(t.drop_first(), k));
                assert(find_s(s, k) == find_s(s.drop_first(), k));
            }
        }
    } else {
        assert(t[0] == s[0]);
        assert(t.drop_first() =~= s.drop_first().update(j - 1, e));
        assert(forall|i: int| 0 <= i < j - 1 ==> s.drop_first()[i].0@ == s[i + 1].0@);
        assert(s.drop_first()[j - 1] == s[j]);
        lemma_find_s_update(s.drop_first(), j - 1, e);
        assert forall|k: Seq<char>|
            find_s(t, k) == (if k == e.0@ {
                Some(e.1)
            } else {
                find_s(s, k)
            }) by {
            if k == s[0].0@ {
                assert(k != e.0@);
            } else {
                assert(find_s(t, k) == find_s(t.drop_first(), k));
                assert(find_s(s, k) == find_s(s.drop_first(), k));
            }
        }
    }
}

proof fn lemma_find_s_push(s: Seq<(String, Option<String>)>, e: (String, Option<String>))
    requires
        find_s(s, e.0@) is None,
    ensures
        forall|k: Seq<char>| find_s(s.push(e), k) == (if k == e.0@ {
            Some(e.1)
        } else {
            find_s(s, k)
        }),
    decreases s.len(),
{
    let t = s.push(e);
    if s.len() == 0 {
        assert(t[0] == e);
        assert(t.drop_first() =~= Seq::<(String, Option<String>)>::empty());
        assert forall|k: Seq<char>|
            find_s(t, k) == (if k == e.0@ {
                Some(e.1)
            } else {
                find_s(s, k)
            }) by {
            if k != e.0@ {
                assert(find_s(t, k) == find_s(t.drop_first(), k));
            }
        }
    } else {
        assert(t[0] == s[0]);
        assert(t.drop_first() =~= s.drop_first().push(e));
        assert(s[0].0@ != e.0@);
        lemma_find_s_push(s.drop_first(), e);
        assert forall|k: Seq<char>|
            find_s(t, k) == (if k == e.0@ {
                Some(e.1)
            } else {
                find_s(s, k)
            }) by {
            if k != s[0].0@ {
                assert(find_s(t, k) == find_s(t.drop_first(), k));
                assert(find_s(s, k) == find_s(s.drop_first(), k));
            }
        }
    }
}

proof fn lemma_total_bytes_push(s: Seq<(String, String)>, e: (String, String))
    ensures
        total_bytes(s.push(e)) == total_bytes(s) + entry_bytes(e),
    decreases s.len(),
{
    if s.len() == 0 {
        assert(s.push(e)[0] == e);
        assert(s.push(e).drop_first() =~= Seq::<(String, String)>::empty());
        assert(total_bytes(s.push(e).drop_first()) == 0);
        assert(total_bytes(s) == 0);
        assert(total_bytes(s.push(e)) == entry_bytes(e) + total_bytes(s.push(e).drop_first()));
    } else {
        assert(s.push(e)[0] == s[0]);
        assert(s.push(e).drop_first() =~= s.drop_first().push(e));
        lemma_total_bytes_push(s.drop_first(), e);
        assert(total_bytes(s.push(e)) == entry_bytes(s[0]) + total_bytes(s.drop_first().push(e)));
        assert(total_bytes(s) == entry_bytes(s[0]) + total_bytes(s.drop_first()));
    }
}

proof fn lemma_apply_st_snoc(
    c: Seq<(String, String)>,
    st: Seq<(String, Option<String>)>,
    e: (String, String),
)
    ensures
        apply_st(c.push(e), st) == apply_st(c, st) + (match find_s(st, e.0@) {
            Some(Some(v)) => seq![(e.0, v)],
            Some(None) => Seq::<(String, String)>::empty(),
            None => seq![e],
        }),
    decreases c.len(),
{
    let tail = (match find_s(st, e.0@) {
        Some(Some(v)) => seq![(e.0, v)],
        Some(None) => Seq::<(String, String)>::empty(),
        None => seq![e],
    });
    if c.len() == 0 {
        assert(c.push(e)[0] == e);
        assert(c.push(e).drop_first() =~= Seq::<(String, String)>::empty());
        assert(apply_st(c.push(e).drop_first(), st) == Seq::<(String, String)>::empty());
        assert(apply_st(c, st) == Seq::<(String, String)>::empty());
        match find_s(st, e.0@) {
            Some(Some(v)) => {
                assert(apply_st(c.push(e), st) == seq![(e.0, v)] + apply_st(
                    c.push(e).drop_first(),
                    st,
                ));
                assert(apply_st(c.push(e), st) =~= apply_st(c, st) + tail);
            },
            Some(None) => {
                assert(apply_st(c.push(e), st) =~= apply_st(c, st) + tail);
            },
            None => {
                assert(apply_st(c.push(e), st) == seq![e] + apply_st(c.push(e).drop_first(), st));
                assert(apply_st(c.push(e), st) =~= apply_st(c, st) + tail);
            },
        }
    } else {
        assert(c.push(e)[0] == c[0]);
        assert(c.push(e).drop_first() =~= c.drop_first().push(e));
        lemma_apply_st_snoc(c.drop_first(), st, e);
        assert(apply_st(c.drop_first().push(e), st) == apply_st(c.drop_first(), st) + tail);
        match find_s(st, c[0].0@) {
            Some(Some(v)) => {
                assert(apply_st(c.push(e), st) == seq![(c[0].0, v)] + apply_st(
                    c.drop_first().push(e),
                    st,
                ));
                assert(apply_st(c, st) == seq![(c[0].0, v)] + apply_st(c.drop_first(), st));
                assert(apply_st(c.push(e), st) =~= apply_st(c, st) + tail);
            },
            Some(None) => {
                assert(apply_st(c.push(e), st) == apply_st(c.drop_first().push(e), st));
                assert(apply_st(c, st) == apply_st(c.drop_first(), st));
                assert(apply_st(c.push(e), st) =~= apply_st(c, st) + tail);
            },
            None => {
                assert(apply_st(c.push(e), st) == seq![c[0]] + apply_st(
                    c.drop_first().push(e),
                    st,
                ));
                assert(apply_st(c, st) == seq![c[0]] + apply_st(c.drop_first(), st));
                assert(apply_st(c.push(e), st) =~= apply_st(c, st) + tail);
            },
        }
    }
}

proof fn lemma_new_entries_snoc(
    st: Seq<(String, Option<String>)>,
    c: Seq<(String, String)>,
    e: (String, Option<String>),
)
    ensures
        new_entries(st.push(e), c) == new_entries(st, c) + (match e.1 {
            Some(v) => if find_c(c, e.0@) is Some {
                Seq::<(String, String)>::empty()
            } else {
                seq![(e.0, v)]
            },
            None => Seq::<(String, String)>::empty(),
        }),
    decreases st.len(),
{
    let tail = (match e.1 {
        Some(v) => if find_c(c, e.0@) is Some {
            Seq::<(String, String)>::empty()
        } else {
            seq![(e.0, v)]
        },
        None => Seq::<(String, String)>::empty(),
    });
    if st.len() == 0 {
        assert(st.push(e)[0] == e);
        assert(st.push(e).drop_first() =~= Seq::<(String, Option<String>)>::empty());
        assert(new_entries(st.push(e).drop_first(), c) == Seq::<(String, String)>::empty());
        assert(new_entries(st, c) == Seq::<(String, String)>::empty());
        match e.1 {
            Some(v) => {
                if find_c(c, e.0@) is Some {
                    assert(new_entries(st.push(e), c) =~= new_entries(st, c) + tail);
                } else {
                    assert(new_entries(st.push(e), c) == seq![(e.0, v)] + new_entries(
                        st.push(e).drop_first(),
                        c,
                    ));
                    assert(new_entries(st.push(e), c) =~= new_entries(st, c) + tail);
                }
            },
            None => {
                assert(new_entries(st.push(e), c) =~= new_entries(st, c) + tail);
            },
        }
    } else {
        assert(st.push(e)[0] == st[0]);
        assert(st.push(e).drop_first() =~= st.drop_first().push(e));
        lemma_new_entries_snoc(st.drop_first(), c, e);
        assert(new_entries(st.drop_first().push(e), c) == new_entries(st.drop_first(), c) + tail);
        match st[0].1 {
            Some(v) => {
                if find_c(c, st[0].0@) is Some {
                    assert(new_entries(st.push(e), c) == new_entries(st.drop_first().push(e), c));
                    assert(new_entries(st, c) == new_entries(st.drop_first(), c));
                    assert(new_entries(st.push(e), c) =~= new_entries(st, c) + tail);
                } else {
                    assert(new_entries(st.push(e), c) == seq![(st[0].0, v)] + new_entries(
                        st.drop_first().push(e),
                        c,
                    ));
                    assert(new_entries(st, c) == seq![(st[0].0, v)] + new_entries(
                        st.drop_first(),
                        c,
                    ));
                    assert(new_entries(st.push(e), c) =~= new_entries(st, c) + tail);
                }
            },
            None => {
                assert(new_entries(st.push(e), c) == new_entries(st.drop_first().push(e), c));
                assert(new_entries(st, c) == new_entries(st.drop_first(), c));
                assert(new_entries(st.push(e), c) =~= new_entries(st, c) + tail);
            },
        }
    }
}

proof fn lemma_find_c_concat(a: Seq<(String, String)>, b: Seq<(String, String)>, k: Seq<char>)
    ensures
        find_c(a + b, k) == (if find_c(a, k) is Some {
            find_c(a, k)
        } else {
            find_c(b, k)
        }),
    decreases a.len(),
{
    if a.len() == 0 {
        assert(a + b =~= b);
    } else {
        assert((a + b)[0] == a[0]);
        assert((a + b).drop_first() =~= a.drop_first() + b);
        lemma_find_c_concat(a.drop_first(), b, k);
    }
}

proof fn lemma_apply_st_find(
    c: Seq<(String, String)>,
    st: Seq<(String, Option<String>)>,
    k: Seq<char>,
)
    ensures
        find_c(apply_st(c, st), k) == (match find_s(st, k) {
            Some(Some(v)) => if find_c(c, k) is Some {
                Some(v)
            } else {
                None
            },
            Some(None) => None,
            None => find_c(c, k),
        }),
    decreases c.len(),
{
    if c.len() > 0 {
        lemma_apply_st_find(c.drop_first(), st, k);
        let rest = apply_st(c.drop_first(), st);
        match find_s(st, c[0].0@) {
            Some(Some(v)) => {
                let one = seq![(c[0].0, v)];
                assert(apply_st(c, st) == one + rest);
                assert((one + rest)[0] == (c[0].0, v));
                assert((one + rest).drop_first() =~= rest);
            },
            Some(None) => {},
            None => {
                let one = seq![c[0]];
                assert(apply_st(c, st) == one + rest);
                assert((one + rest)[0] == c[0]);
                assert((one + rest).drop_first() =~= rest);
            },
        }
    }
}

proof fn lemma_new_entries_find(
    st: Seq<(String, Option<String>)>,
    c: Seq<(String, String)>,
    k: Seq<char>,
)
    requires
        distinct_s(st),
    ensures
        find_c(new_entries(st, c), k) == (match find_s(st, k) {
            Some(Some(v)) => if find_c(c, k) is Some {
                None
            } else {
                Some(v)
            },
            _ => None,
        }),
    decreases st.len(),
{
    if st.len() > 0 {
        assert(forall|i: int, j: int|
            0 <= i < j < st.drop_first().len() ==> st.drop_first()[i].0@ != st.drop_first()[j].0@);
        lemma_new_entries_find(st.drop_first(), c, k);
        let rest = new_entries(st.drop_first(), c);
        if k == st[0].0@ {
            assert(forall|i: int| 0 <= i < st.drop_first().len() ==> st.drop_first()[i].0@ != k);
            lemma_find_s_none(st.drop_first(), k);
        }
        match st[0].1 {
            Some(v) => {
                if find_c(c, st[0].0@) is Some {
                } else {
                    let one = seq![(st[0].0, v)];
                    assert(new_entries(st, c) == one + rest);
                    assert((one + rest)[0] == (st[0].0, v));
                    assert((one + rest).drop_first() =~= rest);
                }
            },
            None => {},
        }
    }
}

proof fn lemma_apply_st_shape(c: Seq<(String, String)>, st: Seq<(String, Option<String>)>)
    ensures
        forall|i: int|
            0 <= i < apply_st(c, st).len() ==> find_c(c, #[trigger] apply_st(c, st)[i].0@) is Some,
        distinct_c(c) ==> distinct_c(apply_st(c, st)),
    decreases c.len(),
{
    if c.len() > 0 {
        lemma_apply_st_shape(c.drop_first(), st);
        let rest = apply_st(c.drop_first(), st);
        assert forall|k: Seq<char>| find_c(c.drop_first(), k) is Some implies find_c(c, k)
            is Some by {
            if c[0].0@ == k {
            } else {
                assert(find_c(c, k) == find_c(c.drop_first(), k));
            }
        }
        if distinct_c(c) {
            assert(forall|i: int, j: int|
                0 <= i < j < c.drop_first().len() ==> c.drop_first()[i].0@
                    != c.drop_first()[j].0@);
            assert forall|i: int| 0 <= i < rest.len() implies rest[i].0@ != c[0].0@ by {
                lemma_find_c_position(c.drop_first(), rest[i].0@);
                let j = choose|j: int|
                    0 <= j < c.drop_first().len() && c.drop_first()[j].0@ == rest[i].0@;
                assert(c[j + 1].0@ == rest[i].0@);
            }
        }
        match find_s(st, c[0].0@) {
            Some(Some(v)) => {
                let one = seq![(c[0].0, v)];
                assert(apply_st(c, st) == one + rest);
                assert(forall|i: int|
                    0 < i < (one + rest).len() ==> (one + rest)[i] == rest[i - 1]);
                assert((one + rest)[0] == (c[0].0, v));
            },
            Some(None) => {},
            None => {
                let one = seq![c[0]];
                assert(apply_st(c, st) == one + rest);
                assert(forall|i: int|
                    0 < i < (one + rest).len() ==> (one + rest)[i] == rest[i - 1]);
                assert((one + rest)[0] == c[0]);
            },
        }
    }
}

proof fn lemma_new_entries_shape(st: Seq<(String, Option<String>)>, c: Seq<(String, String)>)
    ensures
        forall|i: int|
            0 <= i < new_entries(st, c).len() ==> find_c(
                c,
                #[trigger] new_entries(st, c)[i].0@,
            ) is None,
        distinct_s(st) ==> distinct_c(new_entries(st, c)),
    decreases st.len(),
{
    if st.len() > 0 {
        assert(forall|i: int, j: int|
            0 <= i < j < st.drop_first().len() ==> distinct_s(st) ==> st.drop_first()[i].0@
                != st.drop_first()[j].0@);
        if distinct_s(st) {
            assert(forall|i: int, j: int|
                0 <= i < j < st.drop_first().len() ==> st.drop_first()[i].0@
                    != st.drop_first()[j].0@);
        }
        lemma_new_entries_shape(st.drop_first(), c);
        let rest = new_entries(st.drop_first(), c);
        if distinct_s(st) {
            assert forall|i: int| 0 <= i < rest.len() implies rest[i].0@ != st[0].0@ by {
                lemma_new_entries_keys(st.drop_first(), c, i);
            }
        }
        match st[0].1 {
            Some(v) => {
                if find_c(c, st[0].0@) is Some {
                } else {
                    let one = seq![(st[0].0, v)];
                    assert(new_entries(st, c) == one + rest);
                    assert(forall|i: int|
                        0 < i < (one + rest).len() ==> (one + rest)[i] == rest[i - 1]);
                    assert((one + rest)[0] == (st[0].0, v));
                }
            },
            None => {},
        }
    }
}

/// Every key of `new_entries(st, c)` occurs in `st`.
proof fn lemma_new_entries_keys(st: Seq<(String, Option<String>)>, c: Seq<(String, String)>, i: int)
    requires
        0 <= i < new_entries(st, c).len(),
    ensures
        exists|j: int| 0 <= j < st.len() && st[j].0@ == new_entries(st, c)[i].0@,
    decreases st.len(),
{
    if st.len() > 0 {
        let rest = new_entries(st.drop_first(), c);
        match st[0].1 {
            Some(v) => {
                if find_c(c, st[0].0@) is Some {
                    lemma_new_entries_keys(st.drop_first(), c, i);
                    let j = choose|j: int|
                        0 <= j < st.drop_first().len() && st.drop_first()[j].0@ == rest[i].0@;
                    assert(st[j + 1].0@ == new_entries(st, c)[i].0@);
                } else {
                    let one = seq![(st[0].0, v)];
                    assert(new_entries(st, c) == one + rest);
                    if i == 0 {
                        assert(st[0].0@ == new_entries(st, c)[0].0@);
                    } else {
                        assert((one + rest)[i] == rest[i - 1]);
                        lemma_new_entries_keys(st.drop_first(), c, i - 1);
                        let j = choose|j: int|
                            0 <= j < st.drop_first().len() && st.drop_first()[j].0@ == rest[i
                                - 1].0@;
                        assert(st[j + 1].0@ == new_entries(st, c)[i].0@);
                    }
                }
            },
            None => {
                lemma_new_entries_keys(st.drop_first(), c, i);
                let j = choose|j: int|
                    0 <= j < st.drop_first().len() && st.drop_first()[j].0@ == rest[i].0@;
                assert(st[j + 1].0@ == new_entries(st, c)[i].0@);
            },
        }
    }
}

fn clone_opt_string(o: &Option<String>) -> (r: Option<String>)
    ensures
        r == *o,
{
    match o {
        Some(s) => Some(s.clone()),
        None => None,
    }
}

fn staging_lookup(st: &Vec<(String, Option<String>)>, key: &str) -> (r: Option<Option<String>>)
    ensures
        r == find_s(st@, key@),
{
    let mut j: usize = 0;
    while j < st.len()
        invariant
            j <= st@.len(),
            forall|i: int| 0 <= i < j ==> st@[i].0@ != key@,
        decreases st@.len() - j,
    {
        if str_eq(st[j].0.as_str(), key) {
            proof {
                lemma_find_s_at(st@, key@, j as int);
            }
            return Some(clone_opt_string(&st[j].1));
        }
        j += 1;
    }
    proof {
        lemma_find_s_none(st@, key@);
    }
    None
}

fn committed_lookup(c: &Vec<(String, String)>, key: &str) -> (r: Option<String>)
    ensures
        r == find_c(c@, key@),
{
    let mut j: usize = 0;
    while j < c.len()
        invariant
            j <= c@.len(),
            forall|i: int| 0 <= i < j ==> c@[i].0@ != key@,
        decreases c@.len() - j,
    {
        if str_eq(c[j].0.as_str(), key) {
            proof {
                lemma_find_c_at(c@, key@, j as int);
            }
            return Some(c[j].1.clone());
        }
        j += 1;
    }
    proof {
        lemma_find_c_none(c@, key@);
    }
    None
}

fn stage_put(st: &mut Vec<(String, Option<String>)>, key: &str, val: Option<String>)
    requires
        distinct_s(old(st)@),
    ensures
        distinct_s(final(st)@),
        forall|k: Seq<char>| find_s(final(st)@, k) == (if k == key@ {
            Some(val)
        } else {
            find_s(old(st)@, k)
        }),
        forall|i: int|
            0 <= i < final(st)@.len() ==> ((exists|j: int|
                0 <= j < old(st)@.len() && #[trigger] final(st)@[i] == old(st)@[j]) || (final(st)@[i].0@
                == key@ && final(st)@[i].1 == val)),
{
    let n = st.len();
    let mut idx: usize = n;
    let mut j: usize = 0;
    while j < n
        invariant
            n == st@.len(),
            j <= n,
            st@ == old(st)@,
            idx == n || (idx < j && st@[idx as int].0@ == key@ && forall|i: int|
                0 <= i < idx ==> st@[i].0@ != key@),
            idx == n ==> forall|i: int| 0 <= i < j ==> st@[i].0@ != key@,
        decreases n - j,
    {
        if idx == n && str_eq(st[j].0.as_str(), key) {
            idx = j;
        }
        j += 1;
    }
    if idx < n {
        let k0 = st[idx].0.clone();
        let ghost before = st@;
        st[idx] = (k0, val);
        proof {
            assert(st@ == before.update(idx as int, (before[idx as int].0, val)));
            lemma_find_s_update(before, idx as int, (before[idx as int].0, val));
            assert(forall|i: int| 0 <= i < st@.len() ==> st@[i].0@ == before[i].0@);
        }
    } else {
        proof {
            lemma_find_s_none(st@, key@);
        }
        let ghost before = st@;
        st.push((key.to_owned(), val));
        proof {
            lemma_find_s_push(before, (st@[before.len() as int].0, val));
            assert(st@[before.len() as int].0@ == key@);
            assert(forall|i: int| 0 <= i < before.len() ==> st@[i] == before[i]);
        }
    }
}

fn committed_total_capped(v: &Vec<(String, String)>) -> (r: usize)
    ensures
        total_bytes(v@) <= usize::MAX ==> r == total_bytes(v@),
        total_bytes(v@) > usize::MAX ==> r == usize::MAX,
{
    let mut acc: usize = 0;
    let mut i: usize = 0;
    while i < v.len()
        invariant
            i <= v@.len(),
            total_bytes(v@.take(i as int)) <= usize::MAX ==> acc == total_bytes(
                v@.take(i as int),
            ),
            total_bytes(v@.take(i as int)) > usize::MAX ==> acc == usize::MAX,
        decreases v@.len() - i,
    {
        let kb = byte_length(v[i].0.as_str());
        let vb = byte_length(v[i].1.as_str());
        acc = acc.saturating_add(kb).saturating_add(vb);
        proof {
            lemma_total_bytes_push(v@.take(i as int), v@[i as int]);
            assert(v@.take(i + 1) =~= v@.take(i as int).push(v@[i as int]));
        }
        i += 1;
    }
    proof {
        assert(v@.take(v@.len() as int) =~= v@);
    }
    acc
}

/// Every committed entry respects the per-key and per-value size limits.
pub open spec fn bounded_entries(s: Seq<(String, String)>) -> bool {
    forall|i: int|
        0 <= i < s.len() ==> sbytes(#[trigger] s[i].0@) <= MAX_KEY_SIZE && sbytes(s[i].1@)
            <= MAX_VALUE_SIZE
}

/// Every staged write respects the per-key and per-value size limits; a
/// staged delete may name any key.
pub open spec fn bounded_staging(s: Seq<(String, Option<String>)>) -> bool {
    forall|i: int|
        0 <= i < s.len() ==> (match (#[trigger] s[i]).1 {
            Some(v) => sbytes(s[i].0@) <= MAX_KEY_SIZE && sbytes(v@) <= MAX_VALUE_SIZE,
            None => true,
        })
}

pub proof fn lemma_find_c_witness(s: Seq<(String, String)>, k: Seq<char>)
    requires
        find_c(s, k) is Some,
    ensures
        exists|j: int|
            0 <= j < s.len() && (#[trigger] s[j]).0@ == k && Some(s[j].1) == find_c(s, k),
    decreases s.len(),
{
    if s.len() > 0 {
        if s[0].0@ == k {
            assert(Some(s[0].1) == find_c(s, k));
        } else {
            lemma_find_c_witness(s.drop_first(), k);
            let j = choose|j: int|
                0 <= j < s.drop_first().len() && (#[trigger] s.drop_first()[j]).0@ == k && Some(
                    s.drop_first()[j].1,
                ) == find_c(s.drop_first(), k);
            assert(s[j + 1] == s.drop_first()[j]);
        }
    }
}

pub proof fn lemma_find_s_witness(s: Seq<(String, Option<String>)>, k: Seq<char>)
    requires
        find_s(s, k) is Some,
    ensures
        exists|j: int|
            0 <= j < s.len() && (#[trigger] s[j]).0@ == k && Some(s[j].1) == find_s(s, k),
    decreases s.len(),
{
    if s.len() > 0 {
        if s[0].0@ == k {
            assert(Some(s[0].1) == find_s(s, k));
        } else {
            lemma_find_s_witness(s.drop_first(), k);
            let j = choose|j: int|
                0 <= j < s.drop_first().len() && (#[trigger] s.drop_first()[j]).0@ == k && Some(
                    s.drop_first()[j].1,
                ) == find_s(s.drop_first(), k);
            assert(s[j + 1] == s.drop_first()[j]);
        }
    }
}

proof fn lemma_apply_st_bounded(c: Seq<(String, String)>, st: Seq<(String, Option<String>)>)
    requires
        bounded_entries(c),
        bounded_staging(st),
    ensures
        bounded_entries(apply_st(c, st)),
    decreases c.len(),
{
    if c.len() > 0 {
        assert(forall|i: int| 0 <= i < c.drop_first().len() ==> c.drop_first()[i] == c[i + 1]);
        lemma_apply_st_bounded(c.drop_first(), st);
        let rest = apply_st(c.drop_first(), st);
        match find_s(st, c[0].0@) {
            Some(Some(v)) => {
                lemma_find_s_witness(st, c[0].0@);
                let j = choose|j: int|
                    0 <= j < st.len() && (#[trigger] st[j]).0@ == c[0].0@ && Some(st[j].1)
                        == find_s(st, c[0].0@);
                assert(st[j].1 == Some(v));
                assert(sbytes(v@) <= MAX_VALUE_SIZE);
                let one = seq![(c[0].0, v)];
                assert(apply_st(c, st) == one + rest);
                assert forall|i: int| 0 <= i < apply_st(c, st).len() implies sbytes(
                    #[trigger] apply_st(c, st)[i].0@,
                ) <= MAX_KEY_SIZE && sbytes(apply_st(c, st)[i].1@) <= MAX_VALUE_SIZE by {
                    if i == 0 {
                        assert(apply_st(c, st)[0] == (c[0].0, v));
                    } else {
                        assert(apply_st(c, st)[i] == rest[i - 1]);
                    }
                }
            },
            Some(None) => {},
            None => {
                let one = seq![c[0]];
                assert(apply_st(c, st) == one + rest);
                assert forall|i: int| 0 <= i < apply_st(c, st).len() implies sbytes(
                    #[trigger] apply_st(c, st)[i].0@,
                ) <= MAX_KEY_SIZE && sbytes(apply_st(c, st)[i].1@) <= MAX_VALUE_SIZE by {
                    if i == 0 {
                        assert(apply_st(c, st)[0] == c[0]);
                    } else {
                        assert(apply_st(c, st)[i] == rest[i - 1]);
                    }
                }
            },
        }
    }
}

proof fn lemma_new_entries_bounded(st: Seq<(String, Option<String>)>, c: Seq<(String, String)>)
    requires
        bounded_staging(st),
    ensures
        bounded_entries(new_entries(st, c)),
    decreases st.len(),
{
    if st.len() > 0 {
        assert(forall|i: int| 0 <= i < st.drop_first().len() ==> st.drop_first()[i] == st[i + 1]);
        lemma_new_entries_bounded(st.drop_first(), c);
        let rest = new_entries(st.drop_first(), c);
        match st[0].1 {
            Some(v) => {
                if find_c(c, st[0].0@) is Some {
                } else {
                    let one = seq![(st[0].0, v)];
                    assert(new_entries(st, c) == one + rest);
                    assert forall|i: int| 0 <= i < new_entries(st, c).len() implies sbytes(
                        #[trigger] new_entries(st, c)[i].0@,
                    ) <= MAX_KEY_SIZE && sbytes(new_entries(st, c)[i].1@) <= MAX_VALUE_SIZE by {
                        if i == 0 {
                            assert(new_entries(st, c)[0] == (st[0].0, v));
                        } else {
                            assert(new_entries(st, c)[i] == rest[i - 1]);
                        }
                    }
                }
            },
            None => {},
        }
    }
}

/// Whether some string in the list reads as the key `k`.
pub open spec fn has_key(vs: Seq<String>, k: Seq<char>) -> bool {
    exists|i: int| 0 <= i < vs.len() && vs[i]@ == k
}

/// Strictly ascending lexicographic order, so no duplicates either.
pub open spec fn strictly_sorted(vs: Seq<String>) -> bool {
    forall|i: int, j: int| 0 <= i < j < vs.len() ==> lex_lt(vs[i]@, vs[j]@)
}

fn insert_sorted(out: &mut Vec<String>, x: String)
    requires
        strictly_sorted(old(out)@),
        !has_key(old(out)@, x@),
    ensures
        strictly_sorted(final(out)@),
        forall|k: Seq<char>| #[trigger] has_key(final(out)@, k) <==> has_key(old(out)@, k) || k
            == x@,
{
    let ghost xv = x@;
    let n = out.len();
    let mut idx: usize = 0;
    while idx < n
        invariant_except_break
            n == out@.len(),
            idx <= n,
            out@ == old(out)@,
            strictly_sorted(out@),
            forall|i: int| 0 <= i < idx ==> lex_lt(out@[i]@, x@),
        ensures
            n == out@.len(),
            out@ == old(out)@,
            strictly_sorted(out@),
            idx <= n,
            forall|i: int| 0 <= i < idx ==> lex_lt(out@[i]@, x@),
            forall|i: int| idx <= i < out@.len() ==> !lex_lt(out@[i]@, x@),
        decreases n - idx,
    {
        if !str_lt(out[idx].as_str(), x.as_str()) {
            proof {
                assert forall|i: int| idx <= i < out@.len() implies !lex_lt(out@[i]@, x@) by {
                    if i > idx && lex_lt(out@[i]@, x@) {
                        lemma_lex_lt_trans(out@[idx as int]@, out@[i]@, x@);
                    }
                }
            }
            break;
        }
        idx += 1;
    }
    let ghost before = out@;
    out.insert(idx, x);
    proof {
        assert(out@ == before.insert(idx as int, out@[idx as int]));
        assert(out@[idx as int]@ == xv);
        assert(out@.len() == before.len() + 1);
        assert(forall|i: int| 0 <= i < idx ==> out@[i] == before[i]);
        assert forall|i: int| idx < i < out@.len() implies out@[i] == before[i - 1] by {
            assert(out@[(i - 1) + 1] == before[i - 1]);
        }
        assert forall|i: int, j: int| 0 <= i < j < out@.len() implies lex_lt(
            out@[i]@,
            out@[j]@,
        ) by {
            if i < idx && j == idx {
            } else if i == idx && j > idx {
                assert(out@[j]@ == before[j - 1]@);
                assert(!lex_lt(before[j - 1]@, xv));
                assert(before[j - 1]@ != xv);
                lemma_lex_lt_connected(xv, before[j - 1]@);
            } else if i < idx && j > idx {
                assert(lex_lt(out@[i]@, xv));
                assert(out@[j]@ == before[j - 1]@);
                assert(!lex_lt(before[j - 1]@, xv));
                assert(before[j - 1]@ != xv);
                lemma_lex_lt_connected(xv, before[j - 1]@);
                lemma_lex_lt_trans(out@[i]@, xv, before[j - 1]@);
            }
        }
        assert forall|k: Seq<char>| #[trigger] has_key(out@, k) <==> has_key(before, k) || k
            == xv by {
            if has_key(out@, k) {
                let i = choose|i: int| 0 <= i < out@.len() && out@[i]@ == k;
                if i < idx {
                    assert(before[i]@ == k);
                } else if i > idx {
                    assert(before[i - 1]@ == k);
                }
            }
            if has_key(before, k) {
                let i = choose|i: int| 0 <= i < before.len() && before[i]@ == k;
                if i < idx {
                    assert(out@[i]@ == k);
                } else {
                    assert(out@[i + 1]@ == k);
                }
            }
            if k == xv {
                assert(out@[idx as int]@ == k);
            }
        }
    }
}

/// The two-layer store: committed entries and staged pending changes.
pub struct StagedStore {
    /// Committed entries; mutate only through the methods.
    pub committed: Vec<(String, String)>,
    /// Staged pending changes; mutate only through the methods.
    pub staging: Vec<(String, Option<String>)>,
}

impl StagedStore {
    /// The committed value bound to a key, if any.
    pub open spec fn committed_at(self, k: Seq<char>) -> Option<Seq<char>> {
        view_c(find_c(self.committed@, k))
    }

    /// The staged delta for a key: `Some(Some(v))` a pending write, `Some(None)`
    /// a pending delete, `None` no pending change.
    pub open spec fn staged(self, k: Seq<char>) -> Option<Option<Seq<char>>> {
        view_s(find_s(self.staging@, k))
    }

    /// What a read of this key observes: staging shadows committed.
    pub open spec fn get_view(self, k: Seq<char>) -> Option<Seq<char>> {
        match self.staged(k) {
            Some(d) => d,
            None => self.committed_at(k),
        }
    }

    /// Whether a read of this key observes a live value.
    pub open spec fn has_view(self, k: Seq<char>) -> bool {
        self.get_view(k) is Some
    }

    /// The committed entry list.
    pub open spec fn committed_entries(self) -> Seq<(String, String)> {
        self.committed@
    }

    /// The staging entry list.
    pub open spec fn staging_entries(self) -> Seq<(String, Option<String>)> {
        self.staging@
    }

    /// The entry list a successful commit would install.
    pub open spec fn merged(self) -> Seq<(String, String)> {
        apply_st(self.committed@, self.staging@) + new_entries(self.staging@, self.committed@)
    }

    /// Whether the post-commit state respects the aggregate limits.
    pub open spec fn commit_fits(self) -> bool {
        total_bytes(self.merged()) <= MAX_TOTAL_SIZE && self.merged().len() <= MAX_KEYS
    }

    /// Well-formedness: no duplicate keys in either layer, and the committed
    /// layer within the aggregate limits.
    pub open spec fn wf(self) -> bool {
        &&& distinct_c(self.committed@)
        &&& distinct_s(self.staging@)
        &&& total_bytes(self.committed@) <= MAX_TOTAL_SIZE
        &&& self.committed@.len() <= MAX_KEYS
        &&& bounded_entries(self.committed@)
        &&& bounded_staging(self.staging@)
    }

    /// An empty store.
    pub fn new() -> (r: StagedStore)
        ensures
            r.wf(),
            r.committed_entries().len() == 0,
            r.staging_entries().len() == 0,
            forall|k: Seq<char>| !r.has_view(k),
            forall|k: Seq<char>| r.staged(k) is None,
    {
        let r = StagedStore { committed: Vec::new(), staging: Vec::new() };
        r
    }

    /// Reads a key, staging first: a staged delete hides a committed value.
    pub fn get(&self, key: &str) -> (r: Option<String>)
        ensures
            view_c(r) == self.get_view(key@),
    {
        match staging_lookup(&self.staging, key) {
            Some(d) => d,
            None => committed_lookup(&self.committed, key),
        }
    }

    /// Whether a read of this key would observe a live value.
    pub fn has(&self, key: &str) -> (r: bool)
        ensures
            r == self.has_view(key@),
    {
        match staging_lookup(&self.staging, key) {
            Some(d) => d.is_some(),
            None => committed_lookup(&self.committed, key).is_some(),
        }
    }

    /// Stages a write. Oversized keys and values are rejected before touching
    /// staging, so they can never appear in any later read or listing.
    pub fn set(&mut self, key: &str, value: String) -> (r: Result<(), SetError>)
        requires
            old(self).wf(),
        ensures
            final(self).wf(),
            r is Err <==> sbytes(key@) > MAX_KEY_SIZE || sbytes(value@) > MAX_VALUE_SIZE,
            r == Err::<(), SetError>(SetError::KeyTooLarge) <==> sbytes(key@) > MAX_KEY_SIZE,
            r is Err ==> *final(self) == *old(self),
            final(self).committed_entries() == old(self).committed_entries(),
            r is Ok ==> forall|k: Seq<char>| final(self).staged(k) == (if k == key@ {
                Some(Some(value@))
            } else {
                old(self).staged(k)
            }),
    {
        if byte_length(key) > MAX_KEY_SIZE {
            return Err(SetError::KeyTooLarge);
        }
        if byte_length(value.as_str()) > MAX_VALUE_SIZE {
            return Err(SetError::ValueTooLarge);
        }
        let ghost v = value@;
        stage_put(&mut self.staging, key, Some(value));
        Ok(())
    }

    /// Stages a delete; a later commit will remove the key from the committed
    /// layer.
    pub fn delete(&mut self, key: &str)
        requires
            old(self).wf(),
        ensures
            final(self).wf(),
            final(self).committed_entries() == old(self).committed_entries(),
            forall|k: Seq<char>| final(self).staged(k) == (if k == key@ {
                Some(None)
            } else {
                old(self).staged(k)
            }),
    {
        stage_put(&mut self.staging, key, None);
    }

    /// Empties both layers.
    pub fn clear(&mut self)
        ensures
            final(self).wf(),
            final(self).committed_entries().len() == 0,
            final(self).staging_entries().len() == 0,
            forall|k: Seq<char>| !final(self).has_view(k),
    {
        self.committed.clear();
        self.staging.clear();
    }

    /// Whether a key belongs in the listing for a pattern: it reads as live,
    /// and it matches the pattern if one was given.
    pub open spec fn key_listed(self, pat: Option<Seq<char>>, k: Seq<char>) -> bool {
        self.has_view(k) && (match pat {
            Some(p) => glob_selects(p, k),
            None => true,
        })
    }

    /// Lists the live keys, staging applied over committed, filtered by an
    /// optional glob pattern and sorted lexicographically.
    pub fn keys(&self, pattern: Option<&str>) -> (r: Result<Vec<String>, PatternError>)
        requires
            self.wf(),
        ensures
            match r {
                Ok(ks) => {
                    &&& (match opt_str_view(pattern) {
                        Some(p) => glob_ok(p),
                        None => true,
                    })
                    &&& strictly_sorted(ks@)
                    &&& forall|k: Seq<char>|
                        #[trigger] has_key(ks@, k) <==> self.key_listed(opt_str_view(pattern), k)
                },
                Err(e) => (match opt_str_view(pattern) {
                    Some(p) => !glob_ok(p) && e == PatternError::InvalidPattern,
                    None => false,
                }),
            },
    {
        let ghost pv = opt_str_view(pattern);
        let mut rx: Option<String> = None;
        match pattern {
            Some(p) => {
                let a = build_glob_regex(p);
                if !regex_compile_ok(a.as_str()) {
                    return Err(PatternError::InvalidPattern);
                }
                rx = Some(a);
            },
            None => {},
        }
        let mut out: Vec<String> = Vec::new();
        let n = self.committed.len();
        let mut i: usize = 0;
        while i < n
            invariant
                self.wf(),
                n == self.committed@.len(),
                i <= n,
                (match pv {
                    Some(p) => glob_ok(p) && rx is Some && rx->0@ == glob_regex(p),
                    None => rx is None,
                }),
                strictly_sorted(out@),
                forall|k: Seq<char>|
                    #[trigger] has_key(out@, k) <==> (exists|t: int|
                        0 <= t < i && self.committed@[t].0@ == k) && self.key_listed(pv, k),
            decreases n - i,
        {
            let ghost k0 = self.committed@[i as int].0@;
            proof {
                assert(forall|t: int| 0 <= t < i ==> self.committed@[t].0@ != k0);
                lemma_find_c_at(self.committed@, k0, i as int);
            }
            let staged = staging_lookup(&self.staging, self.committed[i].0.as_str());
            let live = match staged {
                Some(d) => d.is_some(),
                None => true,
            };
            let mut selected = live;
            if selected {
                match &rx {
                    Some(a) => {
                        selected = regex_full_match(a.as_str(), self.committed[i].0.as_str());
                    },
                    None => {},
                }
            }
            proof {
                assert(live == self.has_view(k0));
                assert(selected == self.key_listed(pv, k0));
            }
            if selected {
                proof {
                    if has_key(out@, k0) {
                        let t = choose|t: int| 0 <= t < i && self.committed@[t].0@ == k0;
                        assert(false);
                    }
                }
                insert_sorted(&mut out, self.committed[i].0.clone());
            }
            proof {
                assert forall|k: Seq<char>|
                    #[trigger] has_key(out@, k) <==> (exists|t: int|
                        0 <= t < i + 1 && self.committed@[t].0@ == k) && self.key_listed(
                        pv,
                        k,
                    ) by {
                    if has_key(out@, k) && k != k0 {
                        let t = choose|t: int| 0 <= t < i && self.committed@[t].0@ == k;
                        assert(0 <= t < i + 1 && self.committed@[t].0@ == k);
                    }
                    if ((exists|t: int| 0 <= t < i + 1 && self.committed@[t].0@ == k)
                        && self.key_listed(pv, k)) {
                        let t = choose|t: int| 0 <= t < i + 1 && self.committed@[t].0@ == k;
                        if t < i {
                            assert(has_key(out@, k));
                        } else {
                            assert(k == k0);
                        }
                    }
                }
            }
            i += 1;
        }
        let m = self.staging.len();
        let mut j: usize = 0;
        while j < m
            invariant
                self.wf(),
                m == self.staging@.len(),
                j <= m,
                (match pv {
                    Some(p) => glob_ok(p) && rx is Some && rx->0@ == glob_regex(p),
                    None => rx is None,
                }),
                strictly_sorted(out@),
                forall|k: Seq<char>|
                    #[trigger] has_key(out@, k) <==> ((exists|t: int|
                        0 <= t < self.committed@.len() && self.committed@[t].0@ == k) || (
                    exists|t: int|
                        0 <= t < j && self.staging@[t].0@ == k && self.staging@[t].1 is Some
                            && find_c(self.committed@, k) is None)) && self.key_listed(pv, k),
            decreases m - j,
        {
            let ghost k1 = self.staging@[j as int].0@;
            let is_write = self.staging[j].1.is_some();
            let fresh = committed_lookup(&self.committed, self.staging[j].0.as_str()).is_none();
            let mut selected = is_write && fresh;
            if selected {
                match &rx {
                    Some(a) => {
                        selected = regex_full_match(a.as_str(), self.staging[j].0.as_str());
                    },
                    None => {},
                }
            }
            proof {
                if is_write {
                    assert(forall|t: int| 0 <= t < j ==> self.staging@[t].0@ != k1);
                    lemma_find_s_at(self.staging@, k1, j as int);
                    assert(self.has_view(k1));
                }
            }
            if selected {
                proof {
                    if has_key(out@, k1) {
                        if exists|t: int|
                            0 <= t < self.committed@.len() && self.committed@[t].0@ == k1 {
                            lemma_find_c_position(self.committed@, k1);
                        }
                        if exists|t: int|
                            0 <= t < j && self.staging@[t].0@ == k1 && self.staging@[t].1 is Some
                                && find_c(self.committed@, k1) is None {
                            let t = choose|t: int| 0 <= t < j && self.staging@[t].0@ == k1;
                            assert(false);
                        }
                        assert(false);
                    }
                }
                insert_sorted(&mut out, self.staging[j].0.clone());
            }
            proof {
                assert forall|k: Seq<char>|
                    #[trigger] has_key(out@, k) <==> ((exists|t: int|
                        0 <= t < self.committed@.len() && self.committed@[t].0@ == k) || (
                    exists|t: int|
                        0 <= t < j + 1 && self.staging@[t].0@ == k && self.staging@[t].1 is Some
                            && find_c(self.committed@, k) is None)) && self.key_listed(pv, k) by {
                    if has_key(out@, k) && k != k1 {
                        if exists|t: int|
                            0 <= t < j && self.staging@[t].0@ == k && self.staging@[t].1 is Some
                                && find_c(self.committed@, k) is None {
                            let t = choose|t: int|
                                0 <= t < j && self.staging@[t].0@ == k && self.staging@[t].1
                                    is Some && find_c(self.committed@, k) is None;
                            assert(0 <= t < j + 1 && self.staging@[t].0@ == k && self.staging@[t].1
                                is Some && find_c(self.committed@, k) is None);
                        }
                    }
                    if (((exists|t: int|
                        0 <= t < self.committed@.len() && self.committed@[t].0@ == k) || (
                    exists|t: int|
                        0 <= t < j + 1 && self.staging@[t].0@ == k && self.staging@[t].1 is Some
                            && find_c(self.committed@, k) is None)) && self.key_listed(pv, k)) {
                        if exists|t: int|
                            0 <= t < j + 1 && self.staging@[t].0@ == k && self.staging@[t].1
                                is Some && find_c(self.committed@, k) is None {
                            let t = choose|t: int|
                                0 <= t < j + 1 && self.staging@[t].0@ == k && self.staging@[t].1
                                    is Some && find_c(self.committed@, k) is None;
                            if t < j {
                                assert(has_key(out@, k));
                            } else {
                                assert(k == k1);
                                assert(selected);
                            }
                        }
                    }
                }
            }
            j += 1;
        }
        proof {
            assert forall|k: Seq<char>| #[trigger] has_key(out@, k) <==> self.key_listed(
                pv,
                k,
            ) by {
                if self.key_listed(pv, k) {
                    match find_s(self.staging@, k) {
                        Some(Some(v)) => {
                            lemma_find_s_position(self.staging@, k);
                            let t = choose|t: int|
                                0 <= t < self.staging@.len() && self.staging@[t].0@ == k;
                            assert(forall|u: int| 0 <= u < t ==> self.staging@[u].0@ != k);
                            lemma_find_s_at(self.staging@, k, t);
                            assert(self.staging@[t].1 is Some);
                            if find_c(self.committed@, k) is Some {
                                lemma_find_c_position(self.committed@, k);
                            }
                        },
                        Some(None) => {
                            assert(!self.has_view(k));
                        },
                        None => {
                            assert(find_c(self.committed@, k) is Some);
                            lemma_find_c_position(self.committed@, k);
                        },
                    }
                }
            }
        }
        Ok(out)
    }

    /// All live pairs, sorted by key: exactly what listing the keys and then
    /// reading each one observes.
    pub fn entries(&self) -> (r: Vec<(String, String)>)
        requires
            self.wf(),
        ensures
            forall|i: int, j: int| 0 <= i < j < r@.len() ==> lex_lt(r@[i].0@, r@[j].0@),
            forall|i: int|
                0 <= i < r@.len() ==> Some((#[trigger] r@[i]).1@) == self.get_view(r@[i].0@),
            forall|k: Seq<char>|
                self.has_view(k) <==> (exists|i: int| 0 <= i < r@.len() && (#[trigger] r@[i]).0@
                    == k),
    {
        let ks = match self.keys(None) {
            Ok(ks) => ks,
            Err(_) => {
                proof {
                    assert(false);
                }
                Vec::new()
            },
        };
        let mut r: Vec<(String, String)> = Vec::new();
        let mut i: usize = 0;
        while i < ks.len()
            invariant
                self.wf(),
                strictly_sorted(ks@),
                forall|k: Seq<char>| #[trigger] has_key(ks@, k) <==> self.key_listed(None, k),
                i <= ks@.len(),
                r@.len() == i,
                forall|t: int|
                    0 <= t < i ==> (#[trigger] r@[t]).0 == ks@[t] && Some(r@[t].1@)
                        == self.get_view(r@[t].0@),
            decreases ks@.len() - i,
        {
            proof {
                assert(has_key(ks@, ks@[i as int]@));
            }
            match self.get(ks[i].as_str()) {
                Some(v) => {
                    r.push((ks[i].clone(), v));
                },
                None => {
                    proof {
                        assert(false);
                    }
                },
            }
            i += 1;
        }
        proof {
            assert forall|k: Seq<char>|
                self.has_view(k) <==> (exists|i: int|
                    0 <= i < r@.len() && (#[trigger] r@[i]).0@ == k) by {
                if self.has_view(k) {
                    assert(has_key(ks@, k));
                    let t = choose|t: int| 0 <= t < ks@.len() && ks@[t]@ == k;
                    assert(r@[t].0@ == k);
                }
                if exists|i: int| 0 <= i < r@.len() && (#[trigger] r@[i]).0@ == k {
                    let t = choose|t: int| 0 <= t < r@.len() && r@[t].0@ == k;
                    assert(ks@[t]@ == k);
                    assert(has_key(ks@, k));
                }
            }
        }
        r
    }

    /// Applies every staged change to the committed layer atomically. The
    /// post-commit totals are computed first; if they break a limit the store
    /// is left exactly as it was, staging included.
    pub fn commit(&mut self) -> (r: Result<(), CommitError>)
        requires
            old(self).wf(),
        ensures
            final(self).wf(),
            r is Ok <==> old(self).commit_fits(),
            r == Err::<(), CommitError>(CommitError::TotalSizeExceeded) <==> total_bytes(old(self).merged())
                > MAX_TOTAL_SIZE,
            r is Err ==> *final(self) == *old(self),
            r is Ok ==> final(self).staging_entries().len() == 0,
            r is Ok ==> final(self).committed_entries() == old(self).merged(),
            r is Ok ==> forall|k: Seq<char>|
                #[trigger] final(self).get_view(k) == old(self).get_view(k),
    {
        let mut merged: Vec<(String, String)> = Vec::new();
        let n = self.committed.len();
        let mut i: usize = 0;
        while i < n
            invariant
                *self == *old(self),
                n == self.committed@.len(),
                i <= n,
                merged@ == apply_st(self.committed@.take(i as int), self.staging@),
            decreases n - i,
        {
            let ghost prefix = self.committed@.take(i as int);
            match staging_lookup(&self.staging, self.committed[i].0.as_str()) {
                Some(d) => {
                    match d {
                        Some(v) => {
                            merged.push((self.committed[i].0.clone(), v));
                        },
                        None => {},
                    }
                },
                None => {
                    merged.push((self.committed[i].0.clone(), self.committed[i].1.clone()));
                },
            }
            proof {
                lemma_apply_st_snoc(prefix, self.staging@, self.committed@[i as int]);
                assert(self.committed@.take(i + 1) =~= prefix.push(self.committed@[i as int]));
                assert(merged@ =~= apply_st(self.committed@.take(i + 1), self.staging@));
            }
            i += 1;
        }
        proof {
            assert(self.committed@.take(n as int) =~= self.committed@);
        }
        let m = self.staging.len();
        let mut j: usize = 0;
        while j < m
            invariant
                *self == *old(self),
                m == self.staging@.len(),
                j <= m,
                merged@ == apply_st(self.committed@, self.staging@) + new_entries(
                    self.staging@.take(j as int),
                    self.committed@,
                ),
            decreases m - j,
        {
            let ghost prefix = self.staging@.take(j as int);
            match &self.staging[j].1 {
                Some(v) => {
                    if committed_lookup(&self.committed, self.staging[j].0.as_str()).is_none() {
                        merged.push((self.staging[j].0.clone(), v.clone()));
                    }
                },
                None => {},
            }
            proof {
                lemma_new_entries_snoc(prefix, self.committed@, self.staging@[j as int]);
                assert(self.staging@.take(j + 1) =~= prefix.push(self.staging@[j as int]));
                assert(merged@ =~= apply_st(self.committed@, self.staging@) + new_entries(
                    self.staging@.take(j + 1),
                    self.committed@,
                ));
            }
            j += 1;
        }
        proof {
            assert(self.staging@.take(m as int) =~= self.staging@);
            assert(merged@ == old(self).merged());
        }
        let total = committed_total_capped(&merged);
        assert(usize::MAX >= MAX_TOTAL_SIZE);
        if total > MAX_TOTAL_SIZE {
            return Err(CommitError::TotalSizeExceeded);
        }
        if merged.len() > MAX_KEYS {
            return Err(CommitError::TooManyKeys);
        }
        proof {
            lemma_apply_st_shape(old(self).committed@, old(self).staging@);
            lemma_new_entries_shape(old(self).staging@, old(self).committed@);
            lemma_apply_st_bounded(old(self).committed@, old(self).staging@);
            lemma_new_entries_bounded(old(self).staging@, old(self).committed@);
            let a = apply_st(old(self).committed@, old(self).staging@);
            let b = new_entries(old(self).staging@, old(self).committed@);
            assert forall|p: int|
                0 <= p < merged@.len() implies sbytes(#[trigger] merged@[p].0@) <= MAX_KEY_SIZE
                && sbytes(merged@[p].1@) <= MAX_VALUE_SIZE by {
                if p < a.len() {
                    assert(merged@[p] == a[p]);
                } else {
                    assert(merged@[p] == b[p - a.len()]);
                }
            }
            assert forall|p: int, q: int| 0 <= p < q < merged@.len() implies merged@[p].0@
                != merged@[q].0@ by {
                if p < a.len() && q >= a.len() {
                    assert(merged@[p] == a[p]);
                    assert(merged@[q] == b[q - a.len()]);
                    assert(find_c(old(self).committed@, a[p].0@) is Some);
                    assert(find_c(old(self).committed@, b[q - a.len()].0@) is None);
                } else if q < a.len() {
                    assert(merged@[p] == a[p]);
                    assert(merged@[q] == a[q]);
                } else {
                    assert(merged@[p] == b[p - a.len()]);
                    assert(merged@[q] == b[q - a.len()]);
                }
            }
        }
        self.committed = merged;
        self.staging = Vec::new();
        proof {
            assert forall|k: Seq<char>|
                #[trigger] final(self).get_view(k) == old(self).get_view(k) by {
                lemma_merged_resolves(*old(self), k);
            }
        }
        Ok(())
    }
}

proof fn lemma_apply_st_noop(c: Seq<(String, String)>, st: Seq<(String, Option<String>)>)
    requires
        st.len() == 0,
    ensures
        apply_st(c, st) == c,
    decreases c.len(),
{
    if c.len() > 0 {
        lemma_apply_st_noop(c.drop_first(), st);
        assert(apply_st(c, st) =~= c);
    }
}

/// Committing is idempotent: a successful commit leaves the staging layer
/// empty, and with nothing staged the merged state is the committed state
/// itself and always fits the limits — so a second commit with no
/// intervening writes succeeds and changes nothing.
pub proof fn lemma_commit_idempotent(s: StagedStore)
    requires
        s.wf(),
        s.staging_entries().len() == 0,
    ensures
        s.commit_fits(),
        s.merged() == s.committed_entries(),
{
    lemma_apply_st_noop(s.committed@, s.staging@);
    assert(s.merged() =~= s.committed@);
}

/// Staging shadows committed on reads: a staged write of `v` under `k` is
/// what a read of `k` observes, whatever the committed layer holds.
pub proof fn lemma_staged_write_shadows(s: StagedStore, k: Seq<char>, v: Seq<char>)
    requires
        s.staged(k) == Some(Some(v)),
    ensures
        s.get_view(k) == Some(v),
{
}

/// A staged delete hides a committed value: after it, and before any commit,
/// the key reads as absent even when the committed layer holds it.
pub proof fn lemma_staged_delete_hides(s: StagedStore, k: Seq<char>)
    requires
        s.staged(k) == Some(None::<Seq<char>>),
    ensures
        !s.has_view(k),
{
}

/// An oversized key or value can never be observed: every read out of a
/// well-formed store respects the per-key and per-value size limits, so a
/// write that was rejected for its size cannot appear in any later `get`,
/// `has` or `keys` result.
pub proof fn lemma_oversized_invisible(s: StagedStore, k: Seq<char>)
    requires
        s.wf(),
        s.has_view(k),
    ensures
        sbytes(k) <= MAX_KEY_SIZE,
        match s.get_view(k) {
            Some(v) => sbytes(v) <= MAX_VALUE_SIZE,
            None => false,
        },
{
    match find_s(s.staging@, k) {
        Some(d) => {
            lemma_find_s_witness(s.staging@, k);
            let j = choose|j: int|
                0 <= j < s.staging@.len() && (#[trigger] s.staging@[j]).0@ == k && Some(
                    s.staging@[j].1,
                ) == find_s(s.staging@, k);
            assert(s.staging@[j].1 is Some);
        },
        None => {
            assert(find_c(s.committed@, k) is Some);
            lemma_find_c_witness(s.committed@, k);
            let j = choose|j: int|
                0 <= j < s.committed@.len() && (#[trigger] s.committed@[j]).0@ == k && Some(
                    s.committed@[j].1,
                ) == find_c(s.committed@, k);
            assert(sbytes(s.committed@[j].0@) <= MAX_KEY_SIZE);
        },
    }
}

/// Looking a key up in the merged entry list gives exactly what a staged read
/// of the original store observes.
pub proof fn lemma_merged_resolves(s: StagedStore, k: Seq<char>)
    requires
        distinct_s(s.staging_entries()),
    ensures
        view_c(find_c(s.merged(), k)) == s.get_view(k),
{
    lemma_find_c_concat(
        apply_st(s.committed_entries(), s.staging_entries()),
        new_entries(s.staging_entries(), s.committed_entries()),
        k,
    );
    lemma_apply_st_find(s.committed_entries(), s.staging_entries(), k);
    lemma_new_entries_find(s.staging_entries(), s.committed_entries(), k);
}

} // verus!
