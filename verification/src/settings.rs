//! Application settings, and how the history of backup roots is kept when
//! the backup root changes.

use vstd::prelude::*;
use crate::text::{chars_of, trim, trim_range};

verus! {

/// The application settings.
#[derive(Clone, Debug)]
pub struct AppSettings {
    pub server_path: String,
    pub config_path: String,
    pub rcon_host: String,
    pub rcon_port: u16,
    pub rcon_password: String,
    /// The Radmin VPN executable that the user picked.
    pub radmin_path: String,
    /// Local save roots the user added to the scan.
    pub local_save_roots: Vec<String>,
    /// Server save roots the user added to the scan.
    pub server_save_roots: Vec<String>,
    /// The chosen root for world backups; empty for the default one.
    pub backup_root: String,
    /// Backup roots used before, kept so that their backups stay listed.
    pub backup_roots: Vec<String>,
    /// Whether the user has seen the note on backups before migration.
    pub migration_backup_notice_seen: bool,
}

impl Default for AppSettings {
    fn default() -> (s: Self)
        ensures
            s.server_path@ == Seq::<char>::empty(),
            s.config_path@ == Seq::<char>::empty(),
            s.rcon_host@ == Seq::<char>::empty(),
            s.rcon_port == 0,
            s.rcon_password@ == Seq::<char>::empty(),
            s.radmin_path@ == Seq::<char>::empty(),
            s.local_save_roots@ == Seq::<String>::empty(),
            s.server_save_roots@ == Seq::<String>::empty(),
            s.backup_root@ == Seq::<char>::empty(),
            s.backup_roots@ == Seq::<String>::empty(),
            !s.migration_backup_notice_seen,
    {
        AppSettings {
            server_path: String::new(),
            config_path: String::new(),
            rcon_host: String::new(),
            rcon_port: 0,
            rcon_password: String::new(),
            radmin_path: String::new(),
            local_save_roots: Vec::new(),
            server_save_roots: Vec::new(),
            backup_root: String::new(),
            backup_roots: Vec::new(),
            migration_backup_notice_seen: false,
        }
    }
}

/// `c` with an ASCII capital letter made small.
pub open spec fn ascii_lower_char(c: char) -> char {
    if 'A' <= c && c <= 'Z' {
        ((c as u32) + 32) as char
    } else {
        c
    }
}

/// `s` with its ASCII capital letters made small.
pub open spec fn ascii_lower(s: Seq<char>) -> Seq<char> {
    s.map_values(|c: char| ascii_lower_char(c))
}

/// Two paths that are the same text up to ASCII case.
pub open spec fn same_path(a: Seq<char>, b: Seq<char>) -> bool {
    ascii_lower(a) == ascii_lower(b)
}

/// `a` comes before `b` in the order of their characters' values.
pub open spec fn key_lt(a: Seq<char>, b: Seq<char>) -> bool
    decreases a.len(),
{
    if a.len() == 0 {
        b.len() > 0
    } else if b.len() == 0 {
        false
    } else if a[0] != b[0] {
        (a[0] as u32) < (b[0] as u32)
    } else {
        key_lt(a.drop_first(), b.drop_first())
    }
}

proof fn lemma_key_lt_irreflexive(a: Seq<char>)
    ensures
        !key_lt(a, a),
    decreases a.len(),
{
    if a.len() > 0 {
        lemma_key_lt_irreflexive(a.drop_first());
    }
}

proof fn lemma_key_lt_transitive(a: Seq<char>, b: Seq<char>, c: Seq<char>)
    requires
        key_lt(a, b),
        key_lt(b, c),
    ensures
        key_lt(a, c),
    decreases a.len(),
{
    if a.len() > 0 && b.len() > 0 && c.len() > 0 && a[0] == b[0] && b[0] == c[0] {
        lemma_key_lt_transitive(a.drop_first(), b.drop_first(), c.drop_first());
    }
}

proof fn lemma_key_lt_total(a: Seq<char>, b: Seq<char>)
    ensures
        key_lt(a, b) || a == b || key_lt(b, a),
    decreases a.len(),
{
    if a.len() > 0 && b.len() > 0 && a[0] == b[0] {
        lemma_key_lt_total(a.drop_first(), b.drop_first());
        if a.drop_first() == b.drop_first() {
            assert(a =~= seq![a[0]] + a.drop_first());
            assert(b =~= seq![b[0]] + b.drop_first());
        }
    } else if a.len() == 0 && b.len() == 0 {
        assert(a =~= b);
    } else if a.len() > 0 && b.len() > 0 {
        vstd::utf8::char_u32_cast(a[0], a[0] as u32);
        vstd::utf8::char_u32_cast(b[0], b[0] as u32);
    }
}

/// Whether `a` comes before `b` (see `key_lt`).
fn key_less(a: &[char], b: &[char]) -> (r: bool)
    ensures
        r == key_lt(a@, b@),
{
    let mut i: usize = 0;
    assert(a@.skip(0) =~= a@);
    assert(b@.skip(0) =~= b@);
    while i < a.len() && i < b.len() && a[i] == b[i]
        invariant
            i <= a@.len(),
            i <= b@.len(),
            key_lt(a@, b@) == key_lt(a@.skip(i as int), b@.skip(i as int)),
        decreases a@.len() - i,
    {
        assert(a@.skip(i as int).drop_first() =~= a@.skip(i + 1));
        assert(b@.skip(i as int).drop_first() =~= b@.skip(i + 1));
        i = i + 1;
    }
    if i == a.len() {
        i < b.len()
    } else if i == b.len() {
        false
    } else {
        (a[i] as u32) < (b[i] as u32)
    }
}

/// Whether `a` and `b` hold the same characters.
pub(crate) fn chars_equal(a: &[char], b: &[char]) -> (r: bool)
    ensures
        r == (a@ == b@),
{
    if a.len() != b.len() {
        return false;
    }
    let mut i: usize = 0;
    while i < a.len()
        invariant
            a@.len() == b@.len(),
            i <= a@.len(),
            forall|j: int| 0 <= j < i ==> a@[j] == b@[j],
        decreases a@.len() - i,
    {
        if a[i] != b[i] {
            return false;
        }
        i = i + 1;
    }
    assert(a@ =~= b@);
    true
}

/// The characters of `s` with ASCII capitals made small.
pub(crate) fn lower_key(s: &str) -> (r: Vec<char>)
    ensures
        r@ == ascii_lower(s@),
{
    let v = chars_of(s);
    let mut out: Vec<char> = Vec::new();
    let mut i: usize = 0;
    while i < v.len()
        invariant
            v@ == s@,
            i <= v@.len(),
            out@ == ascii_lower(v@.take(i as int)),
        decreases v@.len() - i,
    {
        let c = v[i];
        let l = if 'A' <= c && c <= 'Z' {
            let u = (c as u32) + 32;
            assert(u <= 0x7f);
            match crate::unicode::char_from_u32(u) {
                Some(d) => {
                    proof {
                        vstd::utf8::char_u32_cast(d, u);
                    }
                    d
                },
                None => c,
            }
        } else {
            c
        };
        assert(l == ascii_lower_char(c));
        out.push(l);
        assert(ascii_lower(v@.take(i + 1)) =~= ascii_lower(v@.take(i as int)).push(ascii_lower_char(c)));
        i = i + 1;
    }
    assert(v@.take(v@.len() as int) =~= v@);
    out
}

/// The texts of the strings `v`.
pub open spec fn roots_view(v: Seq<String>) -> Seq<Seq<char>> {
    v.map_values(|s: String| s@)
}

/// A root worth keeping in the history: not blank, and not the new root.
pub open spec fn kept_root(r: Seq<char>, next_root: Seq<char>) -> bool {
    trim(r).len() > 0 && !same_path(r, next_root)
}

/// The roots the history is made from, in order: the old history, the new
/// history, and the previous root when the root changes.
pub open spec fn history_candidates(
    previous_roots: Seq<Seq<char>>,
    next_roots: Seq<Seq<char>>,
    previous_root: Seq<char>,
    next_root: Seq<char>,
) -> Seq<Seq<char>> {
    previous_roots + next_roots + if same_path(previous_root, next_root) {
        Seq::empty()
    } else {
        seq![previous_root]
    }
}

/// `r` is the first root of `all` that is kept and has `r`'s key.
pub open spec fn first_of_key(all: Seq<Seq<char>>, r: Seq<char>, next_root: Seq<char>) -> bool {
    exists|i: int|
        0 <= i < all.len() && all[i] == r && kept_root(r, next_root) && forall|i2: int|
            0 <= i2 < i ==> !(kept_root(#[trigger] all[i2], next_root) && same_path(all[i2], r))
}

/// Some root of `h` has the key of `r`.
pub open spec fn has_key(h: Seq<Seq<char>>, r: Seq<char>) -> bool {
    exists|j: int| 0 <= j < h.len() && same_path(#[trigger] h[j], r)
}

/// `h` is the history kept from the candidates `all`: the key of every kept
/// candidate once, given by the first kept candidate with that key, in the
/// order of the keys.
pub open spec fn is_history(h: Seq<Seq<char>>, all: Seq<Seq<char>>, next_root: Seq<char>) -> bool {
    &&& forall|i: int, j: int| 0 <= i < j < h.len() ==> key_lt(ascii_lower(#[trigger] h[i]), ascii_lower(#[trigger] h[j]))
    &&& forall|j: int| 0 <= j < h.len() ==> first_of_key(all, #[trigger] h[j], next_root)
    &&& forall|i: int| 0 <= i < all.len() && kept_root(#[trigger] all[i], next_root) ==> has_key(h, all[i])
}

/// Whether `s` holds more than white space.
fn not_blank(s: &str) -> (r: bool)
    ensures
        r == (trim(s@).len() > 0),
{
    let v = chars_of(s);
    let (a, b) = trim_range(v.as_slice(), 0, v.len());
    assert(v@.subrange(0, v@.len() as int) =~= v@);
    a < b
}

/// Keeps the history of backup roots when the settings go from `previous`
/// to `next`: `previous_root` and `next_root` are the backup roots the two
/// settings resolve to. The history becomes the old and the new history and,
/// if the root changed, the previous root, without blank roots and the new
/// root, one root per path up to ASCII case, ordered by path up to ASCII
/// case. Nothing else in `next` changes.
pub fn preserve_backup_root_history(
    previous: &AppSettings,
    next: &mut AppSettings,
    previous_root: &str,
    next_root: &str,
)
    ensures
        is_history(
            roots_view(final(next).backup_roots@),
            history_candidates(
                roots_view(previous.backup_roots@),
                roots_view(old(next).backup_roots@),
                previous_root@,
                next_root@,
            ),
            next_root@,
        ),
        *final(next) == (AppSettings { backup_roots: final(next).backup_roots, ..*old(next) }),
{
    let ghost all_view = history_candidates(
        roots_view(previous.backup_roots@),
        roots_view(next.backup_roots@),
        previous_root@,
        next_root@,
    );
    let next_key = lower_key(next_root);
    let previous_key = lower_key(previous_root);
    let mut all: Vec<String> = Vec::new();
    let mut i: usize = 0;
    while i < previous.backup_roots.len()
        invariant
            i <= previous.backup_roots@.len(),
            all@.len() == i,
            forall|j: int| 0 <= j < i ==> (#[trigger] all@[j])@ == previous.backup_roots@[j]@,
        decreases previous.backup_roots@.len() - i,
    {
        let c = previous.backup_roots[i].clone();
        assert(c@ == previous.backup_roots@[i as int]@);
        all.push(c);
        i = i + 1;
    }
    let mut i: usize = 0;
    while i < next.backup_roots.len()
        invariant
            i <= next.backup_roots@.len(),
            all@.len() == previous.backup_roots@.len() + i,
            forall|j: int| 0 <= j < previous.backup_roots@.len() ==> (#[trigger] all@[j])@ == previous.backup_roots@[j]@,
            forall|j: int| 0 <= j < i ==> (#[trigger] all@[previous.backup_roots@.len() + j])@ == next.backup_roots@[j]@,
        decreases next.backup_roots@.len() - i,
    {
        let c = next.backup_roots[i].clone();
        assert(c@ == next.backup_roots@[i as int]@);
        all.push(c);
        i = i + 1;
    }
    let ghost pn = previous.backup_roots@.len();
    assert(roots_view(all@) =~= roots_view(previous.backup_roots@) + roots_view(next.backup_roots@)) by {
        assert forall|j: int| 0 <= j < all@.len() implies #[trigger] roots_view(all@)[j] == (roots_view(previous.backup_roots@) + roots_view(next.backup_roots@))[j] by {
            if j >= pn {
                assert(all@[pn + (j - pn)]@ == next.backup_roots@[j - pn]@);
            }
        }
    }
    if !chars_equal(previous_key.as_slice(), next_key.as_slice()) {
        all.push(String::from_str(previous_root));
    }
    assert(roots_view(all@) =~= all_view);
    let mut out: Vec<String> = Vec::new();
    let mut keys: Vec<Vec<char>> = Vec::new();
    let mut i: usize = 0;
    while i < all.len()
        invariant
            i <= all@.len(),
            all_view == roots_view(all@),
            next_key@ == ascii_lower(next_root@),
            keys@.len() == out@.len(),
            forall|j: int| 0 <= j < keys@.len() ==> (#[trigger] keys@[j])@ == ascii_lower(out@[j]@),
            forall|a: int, b: int| 0 <= a < b < keys@.len() ==> key_lt((#[trigger] keys@[a])@, (#[trigger] keys@[b])@),
            forall|j: int| 0 <= j < out@.len() ==> first_of_key(all_view, (#[trigger] out@[j])@, next_root@),
            forall|a: int| 0 <= a < i && kept_root(#[trigger] all_view[a], next_root@) ==> has_key(roots_view(out@), all_view[a]),
        decreases all@.len() - i,
    {
        let x = &all[i];
        assert(all_view[i as int] == x@);
        let kx = lower_key(x.as_str());
        let keep = not_blank(x.as_str()) && !chars_equal(kx.as_slice(), next_key.as_slice());
        if keep {
            let mut k: usize = 0;
            while k < keys.len() && key_less(keys[k].as_slice(), kx.as_slice())
                invariant
                    k <= keys@.len(),
                    forall|j: int| 0 <= j < k ==> key_lt((#[trigger] keys@[j])@, kx@),
                decreases keys@.len() - k,
            {
                k = k + 1;
            }
            let dup = k < keys.len() && chars_equal(keys[k].as_slice(), kx.as_slice());
            if dup {
                proof {
                    assert(same_path(roots_view(out@)[k as int], x@));
                }
            } else {
                proof {
                    assert forall|j: int| k <= j < keys@.len() implies key_lt(kx@, (#[trigger] keys@[j])@) by {
                        lemma_key_lt_total(keys@[k as int]@, kx@);
                        if j > k {
                            lemma_key_lt_transitive(kx@, keys@[k as int]@, keys@[j]@);
                        }
                    }
                    assert forall|j: int| 0 <= j < keys@.len() implies (#[trigger] keys@[j])@ != kx@ by {
                        if j < k {
                            lemma_key_lt_irreflexive(kx@);
                        } else {
                            lemma_key_lt_irreflexive(kx@);
                        }
                    }
                    assert forall|i2: int| 0 <= i2 < i implies !(kept_root(#[trigger] all_view[i2], next_root@) && same_path(all_view[i2], x@)) by {
                        if kept_root(all_view[i2], next_root@) && same_path(all_view[i2], x@) {
                            let j = choose|j: int| 0 <= j < roots_view(out@).len() && same_path(#[trigger] roots_view(out@)[j], all_view[i2]);
                            assert(keys@[j]@ == kx@);
                        }
                    }
                    assert(first_of_key(all_view, x@, next_root@));
                }
                let ghost old_out = out@;
                let ghost old_keys = keys@;
                out.insert(k, x.clone());
                keys.insert(k, kx);
                proof {
                    assert forall|a: int| 0 <= a < i + 1 && kept_root(#[trigger] all_view[a], next_root@) implies has_key(roots_view(out@), all_view[a]) by {
                        if a == i {
                            assert(same_path(roots_view(out@)[k as int], all_view[a]));
                        } else {
                            let j = choose|j: int| 0 <= j < roots_view(old_out).len() && same_path(#[trigger] roots_view(old_out)[j], all_view[a]);
                            if j < k {
                                assert(roots_view(out@)[j] == roots_view(old_out)[j]);
                            } else {
                                assert(roots_view(out@)[j + 1] == roots_view(old_out)[j]);
                            }
                        }
                    }
                }
            }
        }
        i = i + 1;
    }
    let ghost h = roots_view(out@);
    assert forall|a: int, b: int| 0 <= a < b < h.len() implies key_lt(ascii_lower(#[trigger] h[a]), ascii_lower(#[trigger] h[b])) by {
        assert(keys@[a]@ == ascii_lower(h[a]));
        assert(keys@[b]@ == ascii_lower(h[b]));
    }
    assert forall|j: int| 0 <= j < h.len() implies first_of_key(all_view, #[trigger] h[j], next_root@) by {
        assert(h[j] == out@[j]@);
    }
    next.backup_roots = out;
}

} // verus!
