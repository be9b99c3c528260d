//! The application settings and the key/value store they persist in. The
//! store holds each key once; reading the settings overlays the stored
//! values over the defaults, field by field.

use vstd::prelude::*;
use crate::text::str_eq;

verus! {

/// Where the relational store lives on disk; handed to every call that
/// opens its own short-lived connection.
#[derive(Debug, Clone)]
pub struct DbPath(pub String);

/// The user-facing settings.
#[derive(Debug, Clone)]
pub struct AppSettings {
    pub desktop_path: String,
    pub language: String,
    pub theme: String,
    pub enable_watcher: bool,
    pub auto_organize_on_startup: bool,
    pub default_date_format: String,
    pub show_hidden_files: bool,
    pub confirm_before_delete: bool,
    pub use_trash: bool,
}

impl Default for AppSettings {
    /// The defaults: Korean, dark theme, monthly date folders, trash on,
    /// confirmation on, everything else off. The desktop location is left
    /// empty; the caller fills it in from the machine.
    fn default() -> (r: Self)
        ensures
            r.desktop_path@ == Seq::<char>::empty(),
            r.language@ == "ko"@,
            r.theme@ == "dark"@,
            !r.enable_watcher,
            !r.auto_organize_on_startup,
            r.default_date_format@ == "YYYY-MM"@,
            !r.show_hidden_files,
            r.confirm_before_delete,
            r.use_trash,
    {
        AppSettings {
            desktop_path: String::new(),
            language: String::from_str("ko"),
            theme: String::from_str("dark"),
            enable_watcher: false,
            auto_organize_on_startup: false,
            default_date_format: String::from_str("YYYY-MM"),
            show_hidden_files: false,
            confirm_before_delete: true,
            use_trash: true,
        }
    }
}

/// No two entries of the store share a key.
pub open spec fn keys_unique(s: Seq<(String, String)>) -> bool {
    forall|k1: int, k2: int|
        0 <= k1 < k2 < s.len() ==> (#[trigger] s[k1]).0@ != (#[trigger] s[k2]).0@
}

/// Some entry carries this key.
pub open spec fn has_key(s: Seq<(String, String)>, key: Seq<char>) -> bool {
    exists|k: int| #![trigger s[k]] 0 <= k && k < s.len() && s[k].0@ == key
}

/// The position of the entry carrying this key.
pub open spec fn key_idx(s: Seq<(String, String)>, key: Seq<char>) -> int {
    choose|k: int| #![trigger s[k]] 0 <= k && k < s.len() && s[k].0@ == key
}

/// The stored value under this key.
pub open spec fn value_of(s: Seq<(String, String)>, key: Seq<char>) -> Seq<char> {
    s[key_idx(s, key)].1@
}

/// The key/value store behind the settings: each key held once, a write
/// replacing what an earlier write put there.
#[derive(Debug)]
pub struct SettingsStore {
    data: Vec<(String, String)>,
}

impl SettingsStore {
    /// The stored pairs.
    pub closed spec fn entries(self) -> Seq<(String, String)> {
        self.data@
    }

    /// Each key is held once.
    pub open spec fn wf(self) -> bool {
        keys_unique(self.entries())
    }

    /// An empty store.
    pub fn new() -> (r: Self)
        ensures
            r.wf(),
            r.entries().len() == 0,
    {
        SettingsStore { data: Vec::new() }
    }

    /// Reads the value stored under a key, if any.
    pub fn get_setting(&self, key: &str) -> (r: Option<String>)
        requires
            self.wf(),
        ensures
            match r {
                Some(v) => has_key(self.entries(), key@) && v@ == value_of(self.entries(), key@),
                None => !has_key(self.entries(), key@),
            },
    {
        let n = self.data.len();
        let mut k: usize = 0;
        while k < n
            invariant
                k <= n,
                n == self.data@.len(),
                self.wf(),
                forall|j: int| 0 <= j < k ==> (#[trigger] self.data@[j]).0@ != key@,
            decreases n - k,
        {
            if str_eq(self.data[k].0.as_str(), key) {
                proof {
                    let k0 = key_idx(self.entries(), key@);
                    assert(0 <= k0 && k0 < self.entries().len() && self.entries()[k0].0@ == key@);
                    if k0 < k {
                        assert(self.data@[k0].0@ != key@);
                    } else if k0 > k as int {
                        assert(self.data@[k as int].0@ != self.data@[k0].0@);
                    }
                }
                return Some(self.data[k].1.clone());
            }
            k = k + 1;
        }
        proof {
            if has_key(self.entries(), key@) {
                let w = choose|w: int|
                    #![trigger self.entries()[w]]
                    0 <= w && w < self.entries().len() && self.entries()[w].0@ == key@;
                assert(self.data@[w].0@ != key@);
            }
        }
        None
    }

    /// Writes a value under a key, replacing what an earlier write put
    /// there; other keys are untouched.
    pub fn set_setting(&mut self, key: &str, value: &str)
        requires
            old(self).wf(),
        ensures
            final(self).wf(),
            has_key(final(self).entries(), key@),
            value_of(final(self).entries(), key@) == value@,
            forall|other: Seq<char>|
                other != key@ ==> (#[trigger] has_key(final(self).entries(), other) == has_key(
                    old(self).entries(),
                    other,
                ) && (has_key(old(self).entries(), other) ==> value_of(
                    final(self).entries(),
                    other,
                ) == value_of(old(self).entries(), other))),
    {
        let n = self.data.len();
        let mut k: usize = 0;
        while k < n
            invariant
                k <= n,
                n == self.data@.len(),
                self.wf(),
                *self == *old(self),
                forall|j: int| 0 <= j < k ==> (#[trigger] self.data@[j]).0@ != key@,
            decreases n - k,
        {
            if str_eq(self.data[k].0.as_str(), key) {
                let slot = &mut self.data[k];
                slot.1 = value.to_owned();
                proof {
                    lemma_store_lookup(self.data@, old(self).data@, k as int, key@, value@);
                }
                return ;
            }
            k = k + 1;
        }
        self.data.push((key.to_owned(), value.to_owned()));
        proof {
            lemma_store_lookup(
                self.data@,
                old(self).data@,
                self.data@.len() - 1,
                key@,
                value@,
            );
        }
    }

    /// Every stored pair, copied in store order.
    pub fn get_all_settings(&self) -> (r: Vec<(String, String)>)
        ensures
            r@.len() == self.entries().len(),
            forall|k: int|
                0 <= k < r@.len() ==> (#[trigger] r@[k]).0@ == self.entries()[k].0@ && r@[k].1@
                    == self.entries()[k].1@,
    {
        let n = self.data.len();
        let mut out: Vec<(String, String)> = Vec::new();
        let mut k: usize = 0;
        while k < n
            invariant
                k <= n,
                n == self.data@.len(),
                out@.len() == k,
                forall|j: int|
                    0 <= j < k ==> (#[trigger] out@[j]).0@ == self.data@[j].0@ && out@[j].1@
                        == self.data@[j].1@,
            decreases n - k,
        {
            out.push((self.data[k].0.clone(), self.data[k].1.clone()));
            k = k + 1;
        }
        out
    }
}

/// After writing `value` at position `k` under `key` (or appending it
/// there), the store answers `value` for `key` and is unchanged elsewhere.
proof fn lemma_store_lookup(
    now: Seq<(String, String)>,
    before: Seq<(String, String)>,
    k: int,
    key: Seq<char>,
    value: Seq<char>,
)
    requires
        0 <= k < now.len(),
        now[k].0@ == key,
        now[k].1@ == value,
        forall|j: int| 0 <= j < now.len() && j != k ==> #[trigger] now[j] == before[j],
        forall|j: int| 0 <= j < k ==> (#[trigger] before[j]).0@ != key,
        now.len() == before.len() || (now.len() == before.len() + 1 && k == now.len() - 1),
        keys_unique(before),
        now.len() == before.len() ==> before[k].0@ == key,
    ensures
        keys_unique(now),
        has_key(now, key),
        value_of(now, key) == value,
        forall|other: Seq<char>|
            other != key ==> (#[trigger] has_key(now, other) == has_key(before, other) && (has_key(
                before,
                other,
            ) ==> value_of(now, other) == value_of(before, other))),
{
    assert forall|k1: int, k2: int| 0 <= k1 < k2 < now.len() implies (#[trigger] now[k1]).0@ != (
    #[trigger] now[k2]).0@ by {
        if k1 != k && k2 != k {
            assert(now[k1] == before[k1] && now[k2] == before[k2]);
            assert(before[k1].0@ != before[k2].0@);
        } else if k2 == k {
            if k < before.len() {
                if before[k1].0@ == key {
                    assert(before[k1].0@ != before[k].0@ || now.len() == before.len());
                }
            }
            assert(before[k1].0@ != key);
        } else {
            assert(now[k2] == before[k2]);
            assert(before[k2].0@ != key);
        }
    }
    assert(has_key(now, key)) by {
        assert(now[k].0@ == key);
    }
    assert(key_idx(now, key) == k) by {
        let k0 = key_idx(now, key);
        assert(0 <= k0 && k0 < now.len() && now[k0].0@ == key);
        if k0 < k {
            assert(now[k0].0@ != now[k].0@);
        } else if k0 > k {
            assert(now[k].0@ != now[k0].0@);
        }
    }
    assert forall|other: Seq<char>| other != key implies (#[trigger] has_key(now, other) == has_key(
        before,
        other,
    ) && (has_key(before, other) ==> value_of(now, other) == value_of(before, other))) by {
        if has_key(now, other) {
            let w = choose|w: int| #![trigger now[w]] 0 <= w && w < now.len() && now[w].0@ == other;
            assert(w != k);
            assert(before[w].0@ == other);
            assert(has_key(before, other));
        }
        if has_key(before, other) {
            let w = choose|w: int|
                #![trigger before[w]]
                0 <= w && w < before.len() && before[w].0@ == other;
            assert(w != k || now.len() == before.len());
            if w == k {
                assert(before[k].0@ == key);
            }
            assert(now[w].0@ == other);
            assert(has_key(now, other));
            let wn = key_idx(now, other);
            assert(0 <= wn && wn < now.len() && now[wn].0@ == other);
            if wn != w {
                if wn < w {
                    assert(now[wn].0@ != now[w].0@);
                } else {
                    assert(now[w].0@ != now[wn].0@);
                }
            }
            let wb = key_idx(before, other);
            assert(0 <= wb && wb < before.len() && before[wb].0@ == other);
            if wb != w {
                if wb < w {
                    assert(before[wb].0@ != before[w].0@);
                } else {
                    assert(before[w].0@ != before[wb].0@);
                }
            }
            assert(value_of(now, other) == value_of(before, other));
        }
    }
}

} // verus!
