//! The mod loader's bookkeeping: which files count as mod libraries, which
//! leftover temporary copies are stale, and the list of loaded mods with the
//! generation counter that names each load.  Loading a library, calling into
//! it and touching the file system happen outside the library; `H` is what
//! such a load hands back.
use vstd::prelude::*;
use vstd::string::{StringExecFns, StringSliceAdditionalSpecFns};
use crate::text::{decimal_digits, lemma_decimal_digits_are_digits, push_decimal_digits};
use vstd::utf8::{codepoint_width_1, pop_first_scalar, valid_utf8, valid_utf8_concat};

verus! {

/// `std::str::from_utf8` on `bytes`: it succeeds exactly when the bytes are
/// valid UTF-8.
#[verifier::external_body]
fn is_valid_utf8(bytes: &[u8]) -> (r: bool)
    ensures
        r == valid_utf8(bytes@),
{
    std::str::from_utf8(bytes).is_ok()
}

/// The last '.' strictly before `end`.
pub open spec fn last_dot_before(name: Seq<u8>, end: int) -> Option<int>
    decreases end,
{
    if end <= 0 || end > name.len() {
        None
    } else if name[end - 1] == 46 {
        Some(end - 1)
    } else {
        last_dot_before(name, end - 1)
    }
}

/// The dot found lies before `end` and is a dot.
pub proof fn lemma_last_dot_before(name: Seq<u8>, end: int)
    ensures
        match last_dot_before(name, end) {
            Some(i) => 0 <= i < end && end <= name.len() && name[i] == 46,
            None => true,
        },
    decreases end,
{
    if 0 < end <= name.len() && name[end - 1] != 46 {
        lemma_last_dot_before(name, end - 1);
    }
}

/// The '.' that separates a file name's stem from its extension: the last
/// one, unless it is the first byte; the name ".." has none.
pub open spec fn stem_dot(name: Seq<u8>) -> Option<int> {
    if name == seq![46u8, 46u8] {
        None
    } else {
        match last_dot_before(name, name.len() as int) {
            Some(i) => if i > 0 { Some(i) } else { None },
            None => None,
        }
    }
}

/// The extension of a file name (the bytes after its stem's dot).
pub open spec fn file_extension(name: Seq<u8>) -> Option<Seq<u8>> {
    match stem_dot(name) {
        Some(i) => Some(name.subrange(i + 1, name.len() as int)),
        None => None,
    }
}

/// The stem of a file name (the bytes before its stem's dot, or the whole name).
pub open spec fn file_stem(name: Seq<u8>) -> Seq<u8> {
    match stem_dot(name) {
        Some(i) => name.subrange(0, i),
        None => name,
    }
}

/// ASCII lower case of a byte; other bytes are kept.
pub open spec fn ascii_lower(b: u8) -> u8 {
    if 65 <= b <= 90 {
        (b + 32) as u8
    } else {
        b
    }
}

/// Equality of byte strings, ignoring ASCII case.
pub open spec fn ascii_eq_ignore_case(a: Seq<u8>, b: Seq<u8>) -> bool {
    a.len() == b.len() && forall|i: int| 0 <= i < a.len() ==> ascii_lower(#[trigger] a[i]) == ascii_lower(b[i])
}

/// Whether a file name has the given extension: the extension exists, is
/// valid UTF-8 and equals `ext` ignoring ASCII case.
pub open spec fn has_extension(name: Seq<u8>, ext: Seq<u8>) -> bool {
    match file_extension(name) {
        Some(e) => valid_utf8(e) && ascii_eq_ignore_case(e, ext),
        None => false,
    }
}

fn find_stem_dot(name: &[u8]) -> (r: Option<usize>)
    ensures
        match stem_dot(name@) {
            Some(i) => r is Some && r->Some_0 == i,
            None => r is None,
        },
        match r {
            Some(i) => 0 < i < name@.len(),
            None => true,
        },
{
    proof { lemma_last_dot_before(name@, name@.len() as int); }
    if name.len() == 2 && name[0] == 46 && name[1] == 46 {
        assert(name@ =~= seq![46u8, 46u8]);
        return None;
    }
    assert(name@ != seq![46u8, 46u8]) by {
        if name@ == seq![46u8, 46u8] {
            assert(name@.len() == 2 && name@[0] == 46 && name@[1] == 46);
        }
    }
    let mut end = name.len();
    while end > 0
        invariant
            end <= name@.len(),
            name@ != seq![46u8, 46u8],
            last_dot_before(name@, name@.len() as int) == last_dot_before(name@, end as int),
        decreases end,
    {
        if name[end - 1] == 46 {
            assert(last_dot_before(name@, end as int) == Some((end - 1) as int));
            if end - 1 > 0 {
                assert(stem_dot(name@) == Some((end - 1) as int));
                return Some(end - 1);
            } else {
                return None;
            }
        }
        end -= 1;
    }
    None
}

fn ascii_lower_byte(b: u8) -> (r: u8)
    ensures
        r == ascii_lower(b),
{
    if 65 <= b && b <= 90 {
        b + 32
    } else {
        b
    }
}

fn eq_ignore_ascii_case(a: &[u8], b: &[u8]) -> (r: bool)
    ensures
        r == ascii_eq_ignore_case(a@, b@),
{
    if a.len() != b.len() {
        return false;
    }
    let mut i: usize = 0;
    while i < a.len()
        invariant
            a@.len() == b@.len(),
            i <= a@.len(),
            forall|k: int| 0 <= k < i ==> ascii_lower(#[trigger] a@[k]) == ascii_lower(b@[k]),
        decreases a@.len() - i,
    {
        if ascii_lower_byte(a[i]) != ascii_lower_byte(b[i]) {
            return false;
        }
        i += 1;
    }
    true
}

fn matches_extension(name: &[u8], ext: &[u8]) -> (r: bool)
    ensures
        r == has_extension(name@, ext@),
{
    let n = name.len();
    match find_stem_dot(name) {
        Some(i) => {
            let e = vstd::slice::slice_subrange(name, i + 1, name.len());
            is_valid_utf8(e) && eq_ignore_ascii_case(e, ext)
        },
        None => false,
    }
}

/// Whether the file named `file_name` is a mod library: its extension is the
/// platform's library extension `dll_extension`, ignoring ASCII case.
pub fn has_dynlib_extension(file_name: &[u8], dll_extension: &str) -> (r: bool)
    ensures
        r == has_extension(file_name@, dll_extension.spec_bytes()),
{
    matches_extension(file_name, dll_extension.as_bytes())
}

/// The prefix that names the temporary copies of the mod library
/// `mod_file_name`: its stem followed by "_v".  `None` when the stem is not
/// valid UTF-8 (then no copy is ever recognised).
pub fn temp_copy_prefix(mod_file_name: &[u8]) -> (r: Option<Vec<u8>>)
    ensures
        valid_utf8(file_stem(mod_file_name@)) ==> r is Some && r->Some_0@ == file_stem(mod_file_name@) + seq![95u8, 118u8],
        !valid_utf8(file_stem(mod_file_name@)) ==> r is None,
{
    let stem = match find_stem_dot(mod_file_name) {
        Some(i) => vstd::slice::slice_subrange(mod_file_name, 0, i),
        None => mod_file_name,
    };
    assert(stem@ == file_stem(mod_file_name@));
    if !is_valid_utf8(stem) {
        return None;
    }
    let mut out: Vec<u8> = Vec::new();
    let mut k: usize = 0;
    while k < stem.len()
        invariant
            k <= stem@.len(),
            out@ == stem@.take(k as int),
        decreases stem@.len() - k,
    {
        out.push(stem[k]);
        k += 1;
        assert(out@ =~= stem@.take(k as int));
    }
    out.push(95);
    out.push(118);
    assert(out@ =~= file_stem(mod_file_name@) + seq![95u8, 118u8]);
    Some(out)
}

/// The name prefix of the temporary copy made for load `load_gen` of the
/// mod library `mod_file_name`: the library's stem (or "graphite_mod" when
/// the stem is not valid UTF-8), "_v", the generation in decimal and "_".
pub open spec fn temp_name_prefix(mod_file_name: Seq<u8>, load_gen: nat) -> Seq<u8> {
    let stem = file_stem(mod_file_name);
    (if valid_utf8(stem) {
        stem
    } else {
        "graphite_mod".spec_bytes()
    }) + seq![95u8, 118u8] + decimal_digits(load_gen) + seq![95u8]
}

/// ASCII bytes are valid UTF-8.
proof fn lemma_ascii_valid_utf8(s: Seq<u8>)
    requires
        forall|i: int| 0 <= i < s.len() ==> #[trigger] s[i] < 128,
    ensures
        valid_utf8(s),
    decreases s.len(),
{
    if s.len() > 0 {
        let b = s[0];
        assert(b & 0x7f <= 0x7f) by (bit_vector);
        assert(codepoint_width_1(b) <= 0x7f);
        let rest = s.subrange(1, s.len() as int);
        assert(pop_first_scalar(s) =~= rest);
        assert forall|i: int| 0 <= i < rest.len() implies #[trigger] rest[i] < 128 by {
            assert(rest[i] == s[i + 1]);
        }
        lemma_ascii_valid_utf8(rest);
    }
}

/// The name prefix of the temporary copy made for load `load_gen` of the
/// mod library `mod_file_name`.  It is valid UTF-8.
pub fn temp_file_prefix(mod_file_name: &[u8], load_gen: u64) -> (p: Vec<u8>)
    ensures
        p@ == temp_name_prefix(mod_file_name@, load_gen as nat),
        valid_utf8(p@),
{
    let stem = match find_stem_dot(mod_file_name) {
        Some(i) => vstd::slice::slice_subrange(mod_file_name, 0, i),
        None => mod_file_name,
    };
    assert(stem@ == file_stem(mod_file_name@));
    let base: &[u8] = if is_valid_utf8(stem) { stem } else { "graphite_mod".as_bytes() };
    let mut out: Vec<u8> = Vec::new();
    let mut k: usize = 0;
    while k < base.len()
        invariant
            k <= base@.len(),
            out@ == base@.take(k as int),
        decreases base@.len() - k,
    {
        out.push(base[k]);
        k += 1;
        assert(out@ =~= base@.take(k as int));
    }
    assert(base@.take(base@.len() as int) =~= base@);
    out.push(95);
    out.push(118);
    push_decimal_digits(&mut out, load_gen);
    out.push(95);
    assert(out@ =~= temp_name_prefix(mod_file_name@, load_gen as nat));
    proof {
        vstd::utf8::encode_utf8_valid_utf8("graphite_mod"@);
        assert(valid_utf8(base@));
        lemma_decimal_digits_are_digits(load_gen as nat);
        let tail = seq![95u8, 118u8] + decimal_digits(load_gen as nat) + seq![95u8];
        assert forall|i: int| 0 <= i < tail.len() implies #[trigger] tail[i] < 128 by {
            if 2 <= i < tail.len() - 1 {
                assert(tail[i] == decimal_digits(load_gen as nat)[i - 2]);
            }
        }
        lemma_ascii_valid_utf8(tail);
        valid_utf8_concat(base@, tail);
        assert(out@ =~= base@ + tail);
    }
    out
}

/// The last dot before `end` is at `k` when `k` holds a dot and nothing
/// between `k` and `end` does.
proof fn lemma_last_dot_at(name: Seq<u8>, k: int, end: int)
    requires
        0 <= k < end <= name.len(),
        name[k] == 46,
        forall|j: int| k < j < end ==> #[trigger] name[j] != 46,
    ensures
        last_dot_before(name, end) == Some(k),
    decreases end,
{
    if end - 1 != k {
        lemma_last_dot_at(name, k, end - 1);
    }
}

/// Law: the temporary copy made for any load of a mod library (named by
/// `temp_name_prefix`, then a dot-free ASCII random part, a dot and the
/// library extension) is recognised as a stale copy of that library when its
/// stem is valid UTF-8.
pub proof fn lemma_temp_copies_are_stale(mod_file_name: Seq<u8>, load_gen: nat, random: Seq<u8>, ext: Seq<u8>)
    requires
        valid_utf8(file_stem(mod_file_name)),
        forall|i: int| 0 <= i < random.len() ==> #[trigger] random[i] < 128 && random[i] != 46,
        valid_utf8(ext),
        forall|i: int| 0 <= i < ext.len() ==> #[trigger] ext[i] != 46,
    ensures
        ({
            let name = temp_name_prefix(mod_file_name, load_gen) + random + seq![46u8] + ext;
            let prefix = file_stem(mod_file_name) + seq![95u8, 118u8];
            &&& valid_utf8(file_stem(name))
            &&& prefix.len() <= file_stem(name).len()
            &&& file_stem(name).take(prefix.len() as int) == prefix
            &&& has_extension(name, ext)
        }),
{
    let stem = file_stem(mod_file_name);
    let p = temp_name_prefix(mod_file_name, load_gen);
    let name = p + random + seq![46u8] + ext;
    let k: int = p.len() + random.len() as int;
    lemma_decimal_digits_are_digits(load_gen);
    assert(name[k] == 46);
    assert forall|j: int| k < j < name.len() implies #[trigger] name[j] != 46 by {
        assert(name[j] == ext[j - k - 1]);
    }
    lemma_last_dot_at(name, k, name.len() as int);
    assert(name.len() > 2);
    assert(name != seq![46u8, 46u8]);
    assert(stem_dot(name) == Some(k));
    assert(file_stem(name) =~= p + random);
    assert(file_extension(name) == Some(ext)) by {
        assert(name.subrange(k + 1, name.len() as int) =~= ext);
    }
    let tail = seq![95u8, 118u8] + decimal_digits(load_gen) + seq![95u8] + random;
    assert forall|i: int| 0 <= i < tail.len() implies #[trigger] tail[i] < 128 by {
        if 2 <= i < 2 + decimal_digits(load_gen).len() {
            assert(tail[i] == decimal_digits(load_gen)[i - 2]);
        } else if i >= 3 + decimal_digits(load_gen).len() {
            assert(tail[i] == random[i - 3 - decimal_digits(load_gen).len()]);
        }
    }
    lemma_ascii_valid_utf8(tail);
    valid_utf8_concat(stem, tail);
    assert(p + random =~= stem + tail);
    let prefix = stem + seq![95u8, 118u8];
    assert((p + random).take(prefix.len() as int) =~= prefix);
}

/// Whether a file in the temporary directory is a stale copy of a mod: its
/// stem is valid UTF-8 and starts with `prefix`, and its extension is
/// `dll_extension`, ignoring ASCII case.
pub fn is_stale_temp_copy(candidate: &[u8], prefix: &[u8], dll_extension: &str) -> (r: bool)
    ensures
        r == (valid_utf8(file_stem(candidate@)) && prefix@.len() <= file_stem(candidate@).len()
            && file_stem(candidate@).take(prefix@.len() as int) == prefix@ && has_extension(
            candidate@,
            dll_extension.spec_bytes(),
        )),
{
    let stem = match find_stem_dot(candidate) {
        Some(i) => vstd::slice::slice_subrange(candidate, 0, i),
        None => candidate,
    };
    assert(stem@ == file_stem(candidate@));
    let matches_prefix = is_valid_utf8(stem) && starts_with(stem, prefix);
    let matches_ext = matches_extension(candidate, dll_extension.as_bytes());
    matches_prefix && matches_ext
}

fn starts_with(s: &[u8], prefix: &[u8]) -> (r: bool)
    ensures
        r == (prefix@.len() <= s@.len() && s@.take(prefix@.len() as int) == prefix@),
{
    if prefix.len() > s.len() {
        return false;
    }
    let mut i: usize = 0;
    while i < prefix.len()
        invariant
            prefix@.len() <= s@.len(),
            i <= prefix@.len(),
            forall|k: int| 0 <= k < i ==> s@[k] == prefix@[k],
        decreases prefix@.len() - i,
    {
        if s[i] != prefix[i] {
            assert(s@.take(prefix@.len() as int)[i as int] != prefix@[i as int]);
            return false;
        }
        i += 1;
    }
    assert(s@.take(prefix@.len() as int) =~= prefix@);
    true
}

fn bytes_eq(a: &[u8], b: &[u8]) -> (r: bool)
    ensures
        r == (a@ == b@),
{
    if a.len() != b.len() {
        return false;
    }
    let mut i: usize = 0;
    while i < a.len()
        invariant
            a@.len() == b@.len(),
            i <= a@.len(),
            forall|k: int| 0 <= k < i ==> a@[k] == b@[k],
        decreases a@.len() - i,
    {
        if a[i] != b[i] {
            return false;
        }
        i += 1;
    }
    assert(a@ =~= b@);
    true
}

/// A change that the watcher saw in the mods directory.
#[derive(Clone, Copy, Debug, PartialEq, Eq, Structural)]
pub enum FsChange {
    /// A file's contents changed.
    DataModified,
    /// A file was renamed.
    Renamed,
    /// A file was created.
    Created,
    /// Anything else.
    Other,
}

/// Whether a change to the file named `file_name` asks for a reload: the
/// change writes the file (contents, name or creation) and the file is a mod
/// library.
pub fn triggers_reload(change: FsChange, file_name: &[u8], dll_extension: &str) -> (r: bool)
    ensures
        r == (change != FsChange::Other && has_extension(file_name@, dll_extension.spec_bytes())),
{
    let is_write = match change {
        FsChange::DataModified | FsChange::Renamed | FsChange::Created => true,
        FsChange::Other => false,
    };
    is_write && has_dynlib_extension(file_name, dll_extension)
}

/// A loaded mod: its name and version as it reports them, the path of its
/// library (the bytes of the path's normalised form) and what the load
/// handed back.
pub struct LoadedMod<H> {
    pub name: String,
    pub version: String,
    pub path: Vec<u8>,
    pub handle: H,
}

impl<H> LoadedMod<H> {
    pub fn new(name: String, version: String, path: Vec<u8>, handle: H) -> (m: LoadedMod<H>)
        ensures
            m.name == name,
            m.version == version,
            m.path@ == path@,
            m.handle == handle,
    {
        LoadedMod { name, version, path, handle }
    }

    pub fn path(&self) -> (p: &[u8])
        ensures
            p@ == self.path@,
    {
        self.path.as_slice()
    }

    pub fn handle(&self) -> (h: &H)
        ensures
            *h == self.handle,
    {
        &self.handle
    }

    /// The line by which the mod is listed: "<name> v<version>".
    pub fn display_name(&self) -> (s: String)
        ensures
            s@ == self.name@ + " v"@ + self.version@,
    {
        let mut s = self.name.clone();
        s.append(" v");
        s.append(self.version.as_str());
        s
    }
}

/// The loaded mods, in load order, the directory they are loaded from and
/// the number of loads begun so far.
pub struct ModLoader<H> {
    mods: Vec<LoadedMod<H>>,
    mods_dir: Vec<u8>,
    load_gen: u64,
}

/// The first mod loaded from `path`.
pub open spec fn first_with_path<H>(mods: Seq<LoadedMod<H>>, path: Seq<u8>, i: int) -> bool {
    0 <= i < mods.len() && mods[i].path@ == path && forall|j: int|
        0 <= j < i ==> #[trigger] mods[j].path@ != path
}

/// No two mods were loaded from the same path.
pub open spec fn distinct_paths<H>(mods: Seq<LoadedMod<H>>) -> bool {
    forall|i: int, j: int| 0 <= i < j < mods.len() ==> #[trigger] mods[i].path@ != #[trigger] mods[j].path@
}

/// Law: a reload (the mod from `path` taken out, if any, then the newly
/// loaded mod from `path` added) keeps the paths of the loaded mods distinct,
/// and leaves exactly one mod from `path`, the new one, last.
pub proof fn lemma_reload_keeps_paths_distinct<H>(mods: Seq<LoadedMod<H>>, path: Seq<u8>, removed: Option<int>, m: LoadedMod<H>)
    requires
        distinct_paths(mods),
        m.path@ == path,
        match removed {
            Some(i) => first_with_path(mods, path, i),
            None => forall|i: int| 0 <= i < mods.len() ==> #[trigger] mods[i].path@ != path,
        },
    ensures
        ({
            let after = match removed {
                Some(i) => mods.remove(i),
                None => mods,
            }.push(m);
            &&& distinct_paths(after)
            &&& after.last() == m
            &&& forall|k: int| 0 <= k < after.len() - 1 ==> #[trigger] after[k].path@ != path
        }),
{
    let kept = match removed {
        Some(i) => mods.remove(i),
        None => mods,
    };
    assert forall|k: int| 0 <= k < kept.len() implies #[trigger] kept[k].path@ != path by {
        if let Some(i) = removed {
            if k < i {
                assert(kept[k] == mods[k]);
            } else {
                assert(kept[k] == mods[k + 1]);
                assert(mods[i].path@ != mods[k + 1].path@);
            }
        }
    }
    let after = kept.push(m);
    assert forall|a: int, b: int| 0 <= a < b < after.len() implies #[trigger] after[a].path@ != #[trigger] after[b].path@ by {
        if b == after.len() - 1 {
            assert(after[a] == kept[a]);
        } else if let Some(i) = removed {
            let ma = if a < i { a } else { a + 1 };
            let mb = if b < i { b } else { b + 1 };
            assert(after[a] == mods[ma]);
            assert(after[b] == mods[mb]);
        } else {
            assert(after[a] == mods[a]);
            assert(after[b] == mods[b]);
        }
    }
    assert forall|k: int| 0 <= k < after.len() - 1 implies #[trigger] after[k].path@ != path by {
        assert(after[k] == kept[k]);
    }
}

/// The generation counter after scanning files named `names` from
/// generation `g`: each mod library begins one load.
pub open spec fn scan_generation(g: int, names: Seq<Seq<u8>>, ext: Seq<u8>) -> int
    decreases names.len(),
{
    if names.len() == 0 {
        g
    } else {
        scan_generation(
            if has_extension(names[0], ext) {
                g + 1
            } else {
                g
            },
            names.drop_first(),
            ext,
        )
    }
}

/// The mods after recording loads with outcomes `outcomes`, in order, from
/// `mods`: a successful load is added after the others, a failed one skipped.
pub open spec fn scan_mods<H>(mods: Seq<LoadedMod<H>>, outcomes: Seq<Result<LoadedMod<H>, String>>) -> Seq<LoadedMod<H>>
    decreases outcomes.len(),
{
    if outcomes.len() == 0 {
        mods
    } else {
        scan_mods(
            match outcomes[0] {
                Ok(m) => mods.push(m),
                Err(_) => mods,
            },
            outcomes.drop_first(),
        )
    }
}

/// The mods that succeeded among `outcomes`, in order.
pub open spec fn successful_loads<H>(outcomes: Seq<Result<LoadedMod<H>, String>>) -> Seq<LoadedMod<H>>
    decreases outcomes.len(),
{
    if outcomes.len() == 0 {
        Seq::empty()
    } else {
        let first = match outcomes[0] {
            Ok(m) => seq![m],
            Err(_) => Seq::empty(),
        };
        first + successful_loads(outcomes.drop_first())
    }
}

/// Law: scanning files advances the generation once per mod library, in
/// whichever order the files come.
pub proof fn lemma_scan_generation_counts(g: int, names: Seq<Seq<u8>>, ext: Seq<u8>)
    ensures
        scan_generation(g, names, ext) == g + names.filter(|n: Seq<u8>| has_extension(n, ext)).len(),
    decreases names.len(),
{
    let p = |n: Seq<u8>| has_extension(n, ext);
    if names.len() == 0 {
        assert(names.filter(p) =~= Seq::<Seq<u8>>::empty()) by {
            reveal(Seq::filter);
        }
    } else {
        let rest = names.drop_first();
        assert(names =~= seq![names[0]] + rest);
        rest.lemma_filter_prepend(names[0], p);
        lemma_scan_generation_counts(if has_extension(names[0], ext) { g + 1 } else { g }, rest, ext);
    }
}

/// Law: recording the loads of a scan adds the successful ones after the mods
/// already loaded, in the order of the scan, and skips the failed ones.
pub proof fn lemma_scan_mods_appends<H>(mods: Seq<LoadedMod<H>>, outcomes: Seq<Result<LoadedMod<H>, String>>)
    ensures
        scan_mods(mods, outcomes) == mods + successful_loads(outcomes),
    decreases outcomes.len(),
{
    if outcomes.len() == 0 {
        assert(mods + Seq::<LoadedMod<H>>::empty() =~= mods);
    } else {
        let next = match outcomes[0] {
            Ok(m) => mods.push(m),
            Err(_) => mods,
        };
        lemma_scan_mods_appends(next, outcomes.drop_first());
        let first = match outcomes[0] {
            Ok(m) => seq![m],
            Err(_) => Seq::<LoadedMod<H>>::empty(),
        };
        assert(next =~= mods + first);
        assert(mods + first + successful_loads(outcomes.drop_first()) =~= mods + (first + successful_loads(
            outcomes.drop_first(),
        )));
    }
}

impl<H> ModLoader<H> {
    pub closed spec fn mods(self) -> Seq<LoadedMod<H>> {
        self.mods@
    }

    pub closed spec fn generation(self) -> u64 {
        self.load_gen
    }

    pub closed spec fn dir(self) -> Seq<u8> {
        self.mods_dir@
    }

    /// An empty loader for the mods of `mods_dir`.
    pub fn new(mods_dir: Vec<u8>) -> (l: ModLoader<H>)
        ensures
            l.mods().len() == 0,
            l.generation() == 0,
            l.dir() == mods_dir@,
    {
        ModLoader { mods: Vec::new(), mods_dir, load_gen: 0 }
    }

    /// The number of loads begun so far.
    pub fn load_generation(&self) -> (g: u64)
        ensures
            g == self.generation(),
    {
        self.load_gen
    }

    pub fn mods_dir(&self) -> (d: &[u8])
        ensures
            d@ == self.dir(),
    {
        self.mods_dir.as_slice()
    }

    pub fn mod_count(&self) -> (n: usize)
        ensures
            n == self.mods().len(),
    {
        self.mods.len()
    }

    /// The loaded mods, in load order.
    pub fn loaded(&self) -> (m: &[LoadedMod<H>])
        ensures
            m@ == self.mods(),
    {
        self.mods.as_slice()
    }

    /// "<name> v<version>" for each loaded mod, in load order.
    pub fn mod_names(&self) -> (names: Vec<String>)
        ensures
            names@.len() == self.mods().len(),
            forall|i: int|
                0 <= i < names@.len() ==> #[trigger] names@[i]@ == self.mods()[i].name@ + " v"@
                    + self.mods()[i].version@,
    {
        let mut names: Vec<String> = Vec::new();
        let mut i: usize = 0;
        while i < self.mods.len()
            invariant
                i <= self.mods@.len(),
                names@.len() == i,
                forall|k: int|
                    0 <= k < i ==> #[trigger] names@[k]@ == self.mods@[k].name@ + " v"@
                        + self.mods@[k].version@,
            decreases self.mods@.len() - i,
        {
            names.push(self.mods[i].display_name());
            i += 1;
        }
        names
    }

    /// Starts a new load: the generation counter advances and its new value
    /// names the load.
    pub fn next_load_gen(&mut self) -> (g: u64)
        requires
            old(self).generation() < u64::MAX,
        ensures
            g == old(self).generation() + 1,
            final(self).generation() == g,
            final(self).mods() == old(self).mods(),
            final(self).dir() == old(self).dir(),
    {
        self.load_gen = self.load_gen + 1;
        self.load_gen
    }

    /// One step of the scan of the mods directory: a file that is a mod
    /// library (by `has_dynlib_extension`) begins a new load, whose
    /// generation is returned; any other file is skipped.
    pub fn scan_entry(&mut self, file_name: &[u8], dll_extension: &str) -> (g: Option<u64>)
        requires
            has_extension(file_name@, dll_extension.spec_bytes()) ==> old(self).generation() < u64::MAX,
        ensures
            has_extension(file_name@, dll_extension.spec_bytes()) ==> g == Some((old(self).generation() + 1) as u64)
                && final(self).generation() == old(self).generation() + 1,
            !has_extension(file_name@, dll_extension.spec_bytes()) ==> g is None && final(self).generation()
                == old(self).generation(),
            final(self).generation() == scan_generation(
                old(self).generation() as int,
                seq![file_name@],
                dll_extension.spec_bytes(),
            ),
            final(self).mods() == old(self).mods(),
            final(self).dir() == old(self).dir(),
    {
        proof {
            reveal_with_fuel(scan_generation, 2);
            assert(seq![file_name@].drop_first() =~= Seq::<Seq<u8>>::empty());
        }
        if has_dynlib_extension(file_name, dll_extension) {
            Some(self.next_load_gen())
        } else {
            None
        }
    }

    /// Records the outcome of a load begun by the scan: a successful load is
    /// added after the others, a failed one is handed back.
    pub fn record_load(&mut self, loaded: Result<LoadedMod<H>, String>) -> (r: Result<(), String>)
        ensures
            final(self).generation() == old(self).generation(),
            final(self).dir() == old(self).dir(),
            final(self).mods() == scan_mods(old(self).mods(), seq![loaded]),
            match loaded {
                Ok(m) => r is Ok && final(self).mods() == old(self).mods().push(m),
                Err(e) => r == Err::<(), String>(e) && final(self).mods() == old(self).mods(),
            },
    {
        proof {
            reveal_with_fuel(scan_mods, 2);
            let outcomes = seq![loaded];
            assert(outcomes.drop_first() =~= Seq::<Result<LoadedMod<H>, String>>::empty());
        }
        match loaded {
            Ok(m) => {
                self.add_mod(m);
                Ok(())
            },
            Err(e) => Err(e),
        }
    }

    /// Adds a freshly loaded mod after the others.
    pub fn add_mod(&mut self, m: LoadedMod<H>)
        ensures
            final(self).mods() == old(self).mods().push(m),
            final(self).generation() == old(self).generation(),
            final(self).dir() == old(self).dir(),
    {
        self.mods.push(m);
    }

    /// Takes out the first mod loaded from `path`, if any.
    pub fn remove_mod(&mut self, path: &[u8]) -> (r: Option<LoadedMod<H>>)
        ensures
            final(self).generation() == old(self).generation(),
            final(self).dir() == old(self).dir(),
            match r {
                Some(m) => exists|i: int|
                    first_with_path(old(self).mods(), path@, i) && m == old(self).mods()[i]
                        && final(self).mods() == old(self).mods().remove(i),
                None => final(self).mods() == old(self).mods() && forall|i: int|
                    0 <= i < old(self).mods().len() ==> #[trigger] old(self).mods()[i].path@ != path@,
            },
    {
        let mut i: usize = 0;
        while i < self.mods.len()
            invariant
                self.mods@ == old(self).mods@,
                self.load_gen == old(self).load_gen,
                self.mods_dir@ == old(self).mods_dir@,
                i <= self.mods@.len(),
                forall|j: int| 0 <= j < i ==> #[trigger] self.mods@[j].path@ != path@,
            decreases self.mods@.len() - i,
        {
            if bytes_eq(self.mods[i].path.as_slice(), path) {
                let m = self.mods.remove(i);
                assert(first_with_path(old(self).mods(), path@, i as int));
                return Some(m);
            }
            i += 1;
        }
        None
    }

    /// The first half of a reload: the mod previously loaded from `path`, if
    /// any, is taken out (for its unloading), and a new load generation is
    /// begun.
    pub fn begin_reload(&mut self, path: &[u8]) -> (r: (Option<LoadedMod<H>>, u64))
        requires
            old(self).generation() < u64::MAX,
        ensures
            r.1 == old(self).generation() + 1,
            final(self).generation() == r.1,
            final(self).dir() == old(self).dir(),
            match r.0 {
                Some(m) => exists|i: int|
                    first_with_path(old(self).mods(), path@, i) && m == old(self).mods()[i]
                        && final(self).mods() == old(self).mods().remove(i),
                None => final(self).mods() == old(self).mods() && forall|i: int|
                    0 <= i < old(self).mods().len() ==> #[trigger] old(self).mods()[i].path@ != path@,
            },
    {
        let removed = self.remove_mod(path);
        let g = self.next_load_gen();
        (removed, g)
    }

    /// The second half of a reload: a successful load is added after the
    /// other mods; a failed one is reported.
    pub fn finish_reload(&mut self, loaded: Result<LoadedMod<H>, String>) -> (r: Result<(), String>)
        ensures
            final(self).generation() == old(self).generation(),
            final(self).dir() == old(self).dir(),
            match loaded {
                Ok(m) => r is Ok && final(self).mods() == old(self).mods().push(m),
                Err(e) => r == Err::<(), String>(e) && final(self).mods() == old(self).mods(),
            },
    {
        self.record_load(loaded)
    }
}

} // verus!
