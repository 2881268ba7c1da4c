//! Exact-match capability set, default-deny.
use vstd::prelude::*;
use crate::json::{self, JsonView, field, array_of, str_of, parsed_text};
use crate::text::same_text;

verus! {

/// The capabilities the host knows, in sorted (byte-wise) order.
pub open spec fn known_sorted() -> Seq<Seq<char>> {
    seq![
        "keyboard.press"@,
        "keyboard.press.dangerous"@,
        "keyboard.type"@,
        "mouse.click"@,
        "screen.capture"@,
    ]
}

pub open spec fn is_known(name: Seq<char>) -> bool {
    known_sorted().contains(name)
}

/// The known names are pairwise distinct.
pub proof fn lemma_known_distinct()
    ensures
        forall|i: int, j: int| 0 <= i < j < 5 ==> known_sorted()[i] != known_sorted()[j],
{
    reveal_strlit("keyboard.press");
    reveal_strlit("keyboard.press.dangerous");
    reveal_strlit("keyboard.type");
    reveal_strlit("mouse.click");
    reveal_strlit("screen.capture");
    assert("keyboard.press"@.len() != "keyboard.press.dangerous"@.len());
    assert("keyboard.press"@[9] != "keyboard.type"@[9]);
    assert("keyboard.press"@[0] != "mouse.click"@[0]);
    assert("keyboard.press"@[0] != "screen.capture"@[0]);
    assert("keyboard.press.dangerous"@[9] != "keyboard.type"@[9]);
    assert("keyboard.press.dangerous"@[0] != "mouse.click"@[0]);
    assert("keyboard.press.dangerous"@[0] != "screen.capture"@[0]);
    assert("keyboard.type"@[0] != "mouse.click"@[0]);
    assert("keyboard.type"@[0] != "screen.capture"@[0]);
    assert("mouse.click"@[0] != "screen.capture"@[0]);
}

/// Position of a known name in `known_sorted`.
fn known_index(name: &str) -> (r: Option<usize>)
    ensures
        r matches Some(i) ==> i < 5 && known_sorted()[i as int] == name@,
        r is None ==> !is_known(name@),
{
    if same_text(name, "keyboard.press") {
        Some(0)
    } else if same_text(name, "keyboard.press.dangerous") {
        Some(1)
    } else if same_text(name, "keyboard.type") {
        Some(2)
    } else if same_text(name, "mouse.click") {
        Some(3)
    } else if same_text(name, "screen.capture") {
        Some(4)
    } else {
        proof {
            if is_known(name@) {
                let k = choose|k: int| 0 <= k < 5 && known_sorted()[k] == name@;
                assert(known_sorted()[k] == name@);
            }
        }
        None
    }
}

/// The text of the `k`-th known name.
fn known_name(k: usize) -> (r: &'static str)
    requires
        k < 5,
    ensures
        r@ == known_sorted()[k as int],
{
    if k == 0 {
        "keyboard.press"
    } else if k == 1 {
        "keyboard.press.dangerous"
    } else if k == 2 {
        "keyboard.type"
    } else if k == 3 {
        "mouse.click"
    } else {
        "screen.capture"
    }
}

/// The granted names of a set, in sorted order.
pub open spec fn granted_in_order(set: Set<Seq<char>>) -> Seq<Seq<char>> {
    known_sorted().filter(|n: Seq<char>| set.contains(n))
}

/// The set of granted capability names.
#[derive(Debug, Clone, Copy)]
pub struct Capabilities {
    granted: [bool; 5],
}

impl Capabilities {
    pub closed spec fn names(self) -> Set<Seq<char>> {
        Set::new(
            |n: Seq<char>| exists|i: int| 0 <= i < 5 && self.granted@[i] && n == known_sorted()[i],
        )
    }
}

impl View for Capabilities {
    type V = Set<Seq<char>>;

    closed spec fn view(&self) -> Set<Seq<char>> {
        self.names()
    }
}

/// The grant list of a configuration document: the array under "granted".
pub open spec fn grant_list(v: JsonView) -> Option<Seq<JsonView>> {
    match field(v, "granted"@) {
        Some(g) => array_of(g),
        None => None,
    }
}

/// A grant list entry that is the string of a known capability.
pub open spec fn entry_ok(item: JsonView) -> bool {
    match str_of(item) {
        Some(s) => is_known(s),
        None => false,
    }
}

/// The outcome of loading a capability configuration text.
pub enum LoadOutcome {
    /// The text is not JSON.
    NotJson,
    /// There is no array under "granted".
    NoGrantList,
    /// The first offending entry is not a string.
    NotString,
    /// The first offending entry names no known capability.
    Unknown(Seq<char>),
    /// Every entry is a known capability; these are granted.
    Granted(Set<Seq<char>>),
}

/// Index of the first entry that is not a known capability name, if any.
pub open spec fn first_bad(items: Seq<JsonView>) -> Option<int> {
    if exists|i: int| 0 <= i < items.len() && !entry_ok(items[i]) {
        Some(
            choose|i: int|
                0 <= i < items.len() && !entry_ok(items[i]) && forall|j: int|
                    0 <= j < i ==> entry_ok(items[j]),
        )
    } else {
        None
    }
}

pub open spec fn entry_names(items: Seq<JsonView>) -> Set<Seq<char>> {
    Set::new(|n: Seq<char>| exists|i: int| 0 <= i < items.len() && items[i] == JsonView::Str(n))
}

pub open spec fn load_outcome(text: Seq<char>) -> LoadOutcome {
    match parsed_text(text) {
        None => LoadOutcome::NotJson,
        Some(v) => match grant_list(v) {
            None => LoadOutcome::NoGrantList,
            Some(items) => match first_bad(items) {
                Some(i) => match str_of(items[i]) {
                    Some(s) => LoadOutcome::Unknown(s),
                    None => LoadOutcome::NotString,
                },
                None => LoadOutcome::Granted(entry_names(items)),
            },
        },
    }
}

proof fn lemma_first_bad(items: Seq<JsonView>, i: int)
    requires
        0 <= i < items.len(),
        !entry_ok(items[i]),
        forall|j: int| 0 <= j < i ==> entry_ok(items[j]),
    ensures
        first_bad(items) == Some(i),
{
    let k = choose|k: int|
        0 <= k < items.len() && !entry_ok(items[k]) && forall|j: int| 0 <= j < k ==> entry_ok(items[j]);
    assert(0 <= k < items.len() && !entry_ok(items[k]));
    if k < i {
        assert(entry_ok(items[k]));
    }
    if i < k {
        assert(entry_ok(items[i]));
    }
}

impl Capabilities {
    /// Parses a capability configuration `{"granted": [...]}`. Every entry
    /// must be the string of a known capability; the first entry that is
    /// not makes the whole configuration an error. Nothing is ever granted
    /// from a text that fails.
    pub fn load_json(s: &str) -> (r: Result<Self, String>)
        ensures
            r matches Ok(c) ==> load_outcome(s@) == LoadOutcome::Granted(c@),
            r matches Err(m) ==> match load_outcome(s@) {
                LoadOutcome::NotJson => m@ == json::parse_error_text(s@),
                LoadOutcome::NoGrantList => m@ == "config needs {\"granted\": [...]}"@,
                LoadOutcome::NotString => m@ == "capability must be string"@,
                LoadOutcome::Unknown(name) => m@ == "unknown capability: "@ + name,
                LoadOutcome::Granted(_) => false,
            },
    {
        let v = match json::parse_text(s) {
            Ok(v) => v,
            Err(e) => return Err(e),
        };
        let arr = match json::get(&v, "granted") {
            Some(g) => match json::as_array(g) {
                Some(a) => a,
                None => return Err("config needs {\"granted\": [...]}".to_owned()),
            },
            None => return Err("config needs {\"granted\": [...]}".to_owned()),
        };
        let ghost items = json::views_of(arr@);
        let mut granted: [bool; 5] = [false, false, false, false, false];
        let mut i: usize = 0;
        while i < arr.len()
            invariant
                items == json::views_of(arr@),
                grant_list(json::json_view(v)) == Some(items),
                parsed_text(s@) == Some(json::json_view(v)),
                i <= arr@.len(),
                granted@.len() == 5,
                forall|j: int| 0 <= j < i ==> entry_ok(items[j]),
                forall|k: int|
                    0 <= k < 5 ==> (granted@[k] <==> exists|j: int|
                        0 <= j < i && items[j] == JsonView::Str(known_sorted()[k])),
            decreases arr@.len() - i,
        {
            let name = match json::as_str(&arr[i]) {
                Some(n) => n,
                None => {
                    proof {
                        lemma_first_bad(items, i as int);
                    }
                    return Err("capability must be string".to_owned());
                },
            };
            let idx = match known_index(name) {
                Some(k) => k,
                None => {
                    proof {
                        lemma_first_bad(items, i as int);
                    }
                    let mut m = "unknown capability: ".to_owned();
                    m.append(name);
                    return Err(m);
                },
            };
            granted[idx] = true;
            proof {
                lemma_known_distinct();
                assert forall|k: int|
                    0 <= k < 5 implies (granted@[k] <==> exists|j: int|
                    0 <= j < i + 1 && items[j] == JsonView::Str(known_sorted()[k])) by {
                    if k == idx {
                        assert(items[i as int] == JsonView::Str(known_sorted()[k]));
                    } else if exists|j: int|
                        0 <= j < i + 1 && items[j] == JsonView::Str(known_sorted()[k]) {
                        let j = choose|j: int|
                            0 <= j < i + 1 && items[j] == JsonView::Str(known_sorted()[k]);
                        if j == i {
                            assert(known_sorted()[k] == known_sorted()[idx as int]);
                        }
                    }
                }
            }
            i = i + 1;
        }
        let c = Capabilities { granted };
        proof {
            assert(first_bad(items) is None);
            assert(c@ =~= entry_names(items)) by {
                lemma_known_distinct();
                assert forall|n: Seq<char>| c@.contains(n) implies entry_names(items).contains(n) by {
                    let k = choose|k: int| 0 <= k < 5 && c.granted@[k] && n == known_sorted()[k];
                    assert(c.granted@[k]);
                }
                assert forall|n: Seq<char>| entry_names(items).contains(n) implies c@.contains(n) by {
                    let j = choose|j: int| 0 <= j < items.len() && items[j] == JsonView::Str(n);
                    assert(entry_ok(items[j]));
                    let k = choose|k: int| 0 <= k < 5 && known_sorted()[k] == n;
                    assert(known_sorted()[k] == n);
                    assert(c.granted@[k]);
                }
            }
        }
        Ok(c)
    }

    proof fn lemma_granted_flag(self, k: int)
        requires
            0 <= k < 5,
        ensures
            self.granted[k] == self@.contains(known_sorted()[k]),
    {
        lemma_known_distinct();
        if self@.contains(known_sorted()[k]) {
            let j = choose|j: int|
                0 <= j < 5 && self.granted@[j] && known_sorted()[k] == known_sorted()[j];
            assert(j == k);
        }
    }

    /// The granted capability names, sorted.
    pub fn list(&self) -> (r: Vec<String>)
        ensures
            r@.map_values(|s: String| s@) == granted_in_order(self@),
    {
        let ghost pred = |n: Seq<char>| self@.contains(n);
        let mut r: Vec<String> = Vec::new();
        let mut k: usize = 0;
        while k < 5
            invariant
                k <= 5,
                pred == (|n: Seq<char>| self@.contains(n)),
                r@.map_values(|s: String| s@) == known_sorted().take(k as int).filter(pred),
            decreases 5 - k,
        {
            proof {
                self.lemma_granted_flag(k as int);
                reveal(Seq::filter);
                assert(known_sorted().take(k + 1).drop_last() =~= known_sorted().take(k as int));
                assert(known_sorted().take(k + 1).last() == known_sorted()[k as int]);
            }
            if self.granted[k] {
                let name = known_name(k).to_owned();
                r.push(name);
                proof {
                    assert(r@.map_values(|s: String| s@) =~= known_sorted().take(k + 1).filter(pred));
                }
            }
            k = k + 1;
        }
        proof {
            assert(known_sorted().take(5) =~= known_sorted());
        }
        r
    }

    /// Exact match only. No inheritance, no wildcards.
    pub fn allows(&self, cap: &str) -> (r: bool)
        ensures
            r == self@.contains(cap@),
    {
        match known_index(cap) {
            Some(k) => {
                proof {
                    lemma_known_distinct();
                    if self@.contains(cap@) {
                        let j = choose|j: int|
                            0 <= j < 5 && self.granted@[j] && cap@ == known_sorted()[j];
                        assert(known_sorted()[j] == known_sorted()[k as int]);
                    }
                }
                self.granted[k]
            },
            None => {
                proof {
                    if self@.contains(cap@) {
                        let j = choose|j: int|
                            0 <= j < 5 && self.granted@[j] && cap@ == known_sorted()[j];
                        assert(known_sorted().contains(cap@)) by {
                            assert(known_sorted()[j] == cap@);
                        }
                    }
                }
                false
            },
        }
    }
}

/// Byte-wise (for ASCII, character-wise) lexicographic order, the order of
/// `String`'s `Ord`.
pub open spec fn lex_lt(a: Seq<char>, b: Seq<char>) -> bool
    decreases a.len(),
{
    if a.len() == 0 {
        b.len() > 0
    } else if b.len() == 0 {
        false
    } else if a[0] != b[0] {
        (a[0] as u32) < (b[0] as u32)
    } else {
        lex_lt(a.drop_first(), b.drop_first())
    }
}

pub open spec fn strictly_sorted(s: Seq<Seq<char>>) -> bool {
    forall|i: int, j: int| 0 <= i < j < s.len() ==> lex_lt(s[i], s[j])
}

proof fn lemma_known_sorted()
    ensures
        strictly_sorted(known_sorted()),
{
    reveal_strlit("keyboard.press");
    reveal_strlit("keyboard.press.dangerous");
    reveal_strlit("keyboard.type");
    reveal_strlit("mouse.click");
    reveal_strlit("screen.capture");
    reveal_with_fuel(lex_lt, 16);
    let k = known_sorted();
    assert(lex_lt(k[0], k[1]));
    assert(lex_lt(k[0], k[2]));
    assert(lex_lt(k[0], k[3]));
    assert(lex_lt(k[0], k[4]));
    assert(lex_lt(k[1], k[2]));
    assert(lex_lt(k[1], k[3]));
    assert(lex_lt(k[1], k[4]));
    assert(lex_lt(k[2], k[3]));
    assert(lex_lt(k[2], k[4]));
    assert(lex_lt(k[3], k[4]));
}

proof fn lemma_filter_sorted(s: Seq<Seq<char>>, p: spec_fn(Seq<char>) -> bool)
    requires
        strictly_sorted(s),
    ensures
        strictly_sorted(s.filter(p)),
        forall|k: int|
            0 <= k < s.filter(p).len() ==> exists|m: int| 0 <= m < s.len() && s[m] == #[trigger] s.filter(p)[k],
    decreases s.len(),
{
    reveal(Seq::filter);
    if s.len() > 0 {
        let init = s.drop_last();
        lemma_filter_sorted(init, p);
        let fi = init.filter(p);
        assert forall|k: int| 0 <= k < fi.len() implies exists|m: int|
            0 <= m < s.len() && s[m] == #[trigger] fi[k] by {
            let m = choose|m: int| 0 <= m < init.len() && init[m] == fi[k];
            assert(s[m] == init[m]);
        }
        if p(s.last()) {
            let f = fi.push(s.last());
            assert forall|i: int, j: int| 0 <= i < j < f.len() implies lex_lt(f[i], f[j]) by {
                if j == f.len() - 1 {
                    let m = choose|m: int| 0 <= m < init.len() && init[m] == fi[i];
                    assert(s[m] == fi[i]);
                    assert(lex_lt(s[m], s[s.len() - 1]));
                } else {
                    assert(f[i] == fi[i] && f[j] == fi[j]);
                }
            }
            assert forall|k: int| 0 <= k < f.len() implies exists|m: int|
                0 <= m < s.len() && s[m] == #[trigger] f[k] by {
                if k == f.len() - 1 {
                    assert(s[s.len() - 1] == f[k]);
                } else {
                    assert(f[k] == fi[k]);
                }
            }
        }
    }
}

/// Law: the listed capabilities are in strictly increasing order and are
/// exactly the granted names that the host knows.
pub proof fn law_list_sorted_and_exact(set: Set<Seq<char>>)
    ensures
        strictly_sorted(granted_in_order(set)),
        forall|n: Seq<char>|
            granted_in_order(set).contains(n) <==> (set.contains(n) && is_known(n)),
{
    lemma_known_sorted();
    let pred = |n: Seq<char>| set.contains(n);
    lemma_filter_sorted(known_sorted(), pred);
    assert forall|n: Seq<char>|
        granted_in_order(set).contains(n) <==> (set.contains(n) && is_known(n)) by {
        let g = granted_in_order(set);
        if g.contains(n) {
            let k = choose|k: int| 0 <= k < g.len() && g[k] == n;
            known_sorted().lemma_filter_pred(pred, k);
            let m = choose|m: int| 0 <= m < known_sorted().len() && known_sorted()[m] == g[k];
            assert(known_sorted()[m] == n);
        }
        if set.contains(n) && is_known(n) {
            let m = choose|m: int| 0 <= m < known_sorted().len() && known_sorted()[m] == n;
            known_sorted().lemma_filter_contains(pred, m);
        }
    }
}

/// Law: a configuration that loads grants only known capabilities, each
/// named by an entry of its grant list; a configuration that fails grants
/// nothing (there is no value to hold).
pub proof fn law_loaded_grants_known(text: Seq<char>)
    ensures
        load_outcome(text) matches LoadOutcome::Granted(s) ==> forall|n: Seq<char>|
            s.contains(n) ==> is_known(n),
{
    if let LoadOutcome::Granted(s) = load_outcome(text) {
        let v = parsed_text(text)->0;
        let items = grant_list(v)->0;
        assert forall|n: Seq<char>| s.contains(n) implies is_known(n) by {
            let i = choose|i: int| 0 <= i < items.len() && items[i] == JsonView::Str(n);
            if !entry_ok(items[i]) {
                assert(exists|i: int| 0 <= i < items.len() && !entry_ok(items[i]));
            }
        }
    }
}

} // verus!
