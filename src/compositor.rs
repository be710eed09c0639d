//! Compositor selection and the data that the compositor backends exchange:
//! outputs, visible workspaces, version strings.
use vstd::prelude::*;

verus! {

/// A compositor whose workspace events this library follows.
#[derive(Clone, Copy, Debug, PartialEq, Eq, Structural)]
pub enum Compositor {
    Hyprland,
    Niri,
    Sway,
}

/// The environment variables that compositor detection reads.
pub struct DesktopEnv {
    pub xdg_session_desktop: Option<String>,
    pub xdg_current_desktop: Option<String>,
    /// Whether `SWAYSOCK` is set.
    pub swaysock: bool,
    /// Whether `HYPRLAND_INSTANCE_SIGNATURE` is set.
    pub hyprland_instance_signature: bool,
    /// Whether `NIRI_SOCKET` is set.
    pub niri_socket: bool,
}

pub open spec fn starts_with(s: Seq<char>, prefix: Seq<char>) -> bool {
    prefix.len() <= s.len() && s.subrange(0, prefix.len() as int) == prefix
}

pub open spec fn sway_chars() -> Seq<char> {
    seq!['s', 'w', 'a', 'y']
}

pub open spec fn hyprland_chars() -> Seq<char> {
    seq!['H', 'y', 'p', 'r', 'l', 'a', 'n', 'd']
}

pub open spec fn niri_chars() -> Seq<char> {
    seq!['n', 'i', 'r', 'i']
}

/// The compositor that a desktop variable's value names by its prefix.
pub open spec fn desktop_var_spec(value: Option<String>) -> Option<Compositor> {
    match value {
        None => None,
        Some(v) => if starts_with(v@, sway_chars()) {
            Some(Compositor::Sway)
        } else if starts_with(v@, hyprland_chars()) {
            Some(Compositor::Hyprland)
        } else if starts_with(v@, niri_chars()) {
            Some(Compositor::Niri)
        } else {
            None
        },
    }
}

pub open spec fn ipc_socket_spec(env: DesktopEnv) -> Option<Compositor> {
    if env.swaysock {
        Some(Compositor::Sway)
    } else if env.hyprland_instance_signature {
        Some(Compositor::Hyprland)
    } else if env.niri_socket {
        Some(Compositor::Niri)
    } else {
        None
    }
}

/// Detection order: the session desktop, the current desktop, then the IPC
/// socket variables.
pub open spec fn from_env_spec(env: DesktopEnv) -> Option<Compositor> {
    if desktop_var_spec(env.xdg_session_desktop) is Some {
        desktop_var_spec(env.xdg_session_desktop)
    } else if desktop_var_spec(env.xdg_current_desktop) is Some {
        desktop_var_spec(env.xdg_current_desktop)
    } else {
        ipc_socket_spec(env)
    }
}

fn has_prefix(s: &str, prefix: &str) -> (r: bool)
    ensures
        r == starts_with(s@, prefix@),
{
    let n = prefix.unicode_len();
    if n > s.unicode_len() {
        return false;
    }
    let mut i: usize = 0;
    while i < n
        invariant
            n == prefix@.len() <= s@.len(),
            i <= n,
            forall|k: int| 0 <= k < i ==> s@[k] == prefix@[k],
        decreases n - i,
    {
        if s.get_char(i) != prefix.get_char(i) {
            assert(s@.subrange(0, n as int)[i as int] != prefix@[i as int]);
            return false;
        }
        i = i + 1;
    }
    assert(s@.subrange(0, n as int) =~= prefix@);
    true
}

impl Compositor {
    fn from_xdg_desktop_var(value: &Option<String>) -> (r: Option<Compositor>)
        ensures
            r == desktop_var_spec(*value),
    {
        proof {
            reveal_strlit("sway");
            reveal_strlit("Hyprland");
            reveal_strlit("niri");
        }
        match value {
            None => None,
            Some(v) => {
                let v = v.as_str();
                if has_prefix(v, "sway") {
                    assert("sway"@ =~= sway_chars());
                    Some(Compositor::Sway)
                } else if has_prefix(v, "Hyprland") {
                    assert("sway"@ =~= sway_chars());
                    assert("Hyprland"@ =~= hyprland_chars());
                    Some(Compositor::Hyprland)
                } else if has_prefix(v, "niri") {
                    assert("sway"@ =~= sway_chars());
                    assert("Hyprland"@ =~= hyprland_chars());
                    assert("niri"@ =~= niri_chars());
                    Some(Compositor::Niri)
                } else {
                    assert("sway"@ =~= sway_chars());
                    assert("Hyprland"@ =~= hyprland_chars());
                    assert("niri"@ =~= niri_chars());
                    None
                }
            },
        }
    }

    fn from_ipc_socket_var(env: &DesktopEnv) -> (r: Option<Compositor>)
        ensures
            r == ipc_socket_spec(*env),
    {
        if env.swaysock {
            Some(Compositor::Sway)
        } else if env.hyprland_instance_signature {
            Some(Compositor::Hyprland)
        } else if env.niri_socket {
            Some(Compositor::Niri)
        } else {
            None
        }
    }

    /// Detects the compositor from a snapshot of the environment.
    pub fn from_env(env: &DesktopEnv) -> (r: Option<Compositor>)
        ensures
            r == from_env_spec(*env),
    {
        let session = Compositor::from_xdg_desktop_var(&env.xdg_session_desktop);
        if session.is_some() {
            return session;
        }
        let current = Compositor::from_xdg_desktop_var(&env.xdg_current_desktop);
        if current.is_some() {
            return current;
        }
        Compositor::from_ipc_socket_var(env)
    }
}

pub open spec fn is_digit(c: char) -> bool {
    '0' <= c <= '9'
}

/// The first index at or after `start` that does not hold a digit.
pub open spec fn digit_run_end(s: Seq<char>, start: int) -> int
    decreases s.len() - start,
{
    if start >= s.len() || !is_digit(s[start]) {
        start
    } else {
        digit_run_end(s, start + 1)
    }
}

/// The value of a string of decimal digits.
pub open spec fn digits_value(s: Seq<char>) -> nat
    decreases s.len(),
{
    if s.len() == 0 {
        0
    } else {
        digits_value(s.drop_last()) * 10 + (s.last() as nat - '0' as nat) as nat
    }
}

/// A version from its major and minor numbers, ordered as the pair.
pub open spec fn niri_ver_spec(major: u32, minor: u32) -> u64 {
    (major as int * 0x1_0000_0000 + minor as int) as u64
}

/// The version that a niri version string starts with: the first two runs of
/// digits, each ended by a non-digit, each fitting 32 bits.
pub open spec fn niri_version_spec(s: Seq<char>) -> Option<u64> {
    let e1 = digit_run_end(s, 0);
    let major = s.subrange(0, e1);
    let e2 = digit_run_end(s, e1 + 1);
    let minor = s.subrange(e1 + 1, e2);
    if e1 == s.len() || major.len() == 0 || digits_value(major) > u32::MAX || minor.len() == 0
        || digits_value(minor) > u32::MAX {
        None
    } else {
        Some(niri_ver_spec(digits_value(major) as u32, digits_value(minor) as u32))
    }
}

/// Packs a major and a minor version number into one comparable number.
pub fn niri_ver(major: u32, minor: u32) -> (r: u64)
    ensures
        r == niri_ver_spec(major, minor),
{
    let r = ((major as u64) << 32u64) | (minor as u64);
    assert(r == (major as u64) * 0x1_0000_0000 + (minor as u64)) by (bit_vector)
        requires
            r == ((major as u64) << 32u64) | (minor as u64),
            major as u64 <= 0xffff_ffff,
            minor as u64 <= 0xffff_ffff,
    ;
    r
}

proof fn lemma_digit_run_bounds(s: Seq<char>, start: int)
    requires
        0 <= start <= s.len(),
    ensures
        start <= digit_run_end(s, start) <= s.len(),
        forall|k: int| start <= k < digit_run_end(s, start) ==> is_digit(s[k]),
        digit_run_end(s, start) < s.len() ==> !is_digit(s[digit_run_end(s, start)]),
    decreases s.len() - start,
{
    if start < s.len() && is_digit(s[start]) {
        lemma_digit_run_bounds(s, start + 1);
    }
}

/// Reads the digit run that starts at `start`: its end and its value, if
/// that fits 32 bits.
fn read_digits(s: &str, start: usize) -> (r: (usize, Option<u32>))
    requires
        start <= s@.len(),
    ensures
        r.0 == digit_run_end(s@, start as int),
        start <= r.0 <= s@.len(),
        r.1 matches Some(v) ==> v == digits_value(s@.subrange(start as int, r.0 as int)),
        r.1 is None <==> digits_value(s@.subrange(start as int, r.0 as int)) > u32::MAX,
{
    let n = s.unicode_len();
    proof {
        lemma_digit_run_bounds(s@, start as int);
    }
    let mut i: usize = start;
    let mut acc: u64 = 0;
    let mut overflow = false;
    while i < n && is_digit_exec(s.get_char(i))
        invariant
            n == s@.len(),
            start <= i <= digit_run_end(s@, start as int) <= n,
            forall|k: int| start <= k < digit_run_end(s@, start as int) ==> is_digit(s@[k]),
            digit_run_end(s@, start as int) < n ==> !is_digit(s@[digit_run_end(s@, start as int)]),
            overflow <==> digits_value(s@.subrange(start as int, i as int)) > u32::MAX,
            !overflow ==> acc == digits_value(s@.subrange(start as int, i as int)),
        decreases n - i,
    {
        let c = s.get_char(i);
        let d = (c as u32 - '0' as u32) as u64;
        let ghost prev = s@.subrange(start as int, i as int);
        let ghost next = s@.subrange(start as int, i + 1);
        assert(next.drop_last() =~= prev);
        assert(next.last() == c);
        if !overflow {
            acc = acc * 10 + d;
            if acc > 0xffff_ffff {
                overflow = true;
            }
        }
        i = i + 1;
    }
    if i < n {
        assert(!is_digit(s@[i as int]));
        assert(i == digit_run_end(s@, start as int));
    }
    if overflow {
        (i, None)
    } else {
        (i, Some(acc as u32))
    }
}

fn is_digit_exec(c: char) -> (r: bool)
    ensures
        r == is_digit(c),
{
    '0' <= c && c <= '9'
}

/// Parses the version of a niri version string such as `25.02 (commit)`.
pub fn parse_niri_version(version_str: &str) -> (r: Option<u64>)
    ensures
        r == niri_version_spec(version_str@),
{
    let n = version_str.unicode_len();
    let (e1, major) = read_digits(version_str, 0);
    if e1 == n {
        return None;
    }
    let major = match major {
        Some(v) => v,
        None => return None,
    };
    if e1 == 0 {
        return None;
    }
    let (e2, minor) = read_digits(version_str, e1 + 1);
    proof {
        lemma_digit_run_bounds(version_str@, (e1 + 1) as int);
    }
    let minor = match minor {
        Some(v) => v,
        None => return None,
    };
    if e2 == e1 + 1 {
        return None;
    }
    Some(niri_ver(major, minor))
}

/// Whether the current niri IPC applies: for version 25.05 and later, and when
/// the version is unknown.
pub fn niri_ipc_is_current(version: Option<u64>) -> (r: bool)
    ensures
        r == match version {
            Some(v) => v >= niri_ver_spec(25, 5),
            None => true,
        },
{
    match version {
        Some(v) => v >= niri_ver(25, 5),
        None => true,
    }
}

/// An output as the compositor lists it.
pub struct OutputInfo {
    pub name: String,
    pub make_model_serial: String,
}

/// A workspace that became visible on an output.
pub struct WorkspaceVisible {
    pub output: String,
    pub workspace_name: String,
    pub workspace_number: i32,
}

/// The characters with the Unicode White_Space property.
pub open spec fn is_white_space(c: char) -> bool {
    ||| '\u{9}' <= c <= '\u{d}'
    ||| c == ' '
    ||| c == '\u{85}'
    ||| c == '\u{a0}'
    ||| c == '\u{1680}'
    ||| '\u{2000}' <= c <= '\u{200a}'
    ||| c == '\u{2028}'
    ||| c == '\u{2029}'
    ||| c == '\u{202f}'
    ||| c == '\u{205f}'
    ||| c == '\u{3000}'
}

fn is_white_space_exec(c: char) -> (r: bool)
    ensures
        r == is_white_space(c),
{
    ('\u{9}' <= c && c <= '\u{d}') || c == ' ' || c == '\u{85}' || c == '\u{a0}' || c == '\u{1680}' || (
    '\u{2000}' <= c && c <= '\u{200a}') || c == '\u{2028}' || c == '\u{2029}' || c == '\u{202f}' || c
        == '\u{205f}' || c == '\u{3000}'
}

/// The first index at or after `i` that does not hold white space.
pub open spec fn trim_start(s: Seq<char>, i: int) -> int
    decreases s.len() - i,
{
    if i >= s.len() || !is_white_space(s[i]) {
        i
    } else {
        trim_start(s, i + 1)
    }
}

/// The end, at most `j` and at least `lo`, after which only white space
/// follows up to `j`.
pub open spec fn trim_end(s: Seq<char>, j: int, lo: int) -> int
    decreases j - lo,
{
    if j <= lo || !is_white_space(s[j - 1]) {
        j
    } else {
        trim_end(s, j - 1, lo)
    }
}

/// `s` without its leading and trailing white space.
pub open spec fn trim_spec(s: Seq<char>) -> Seq<char> {
    let a = trim_start(s, 0);
    s.subrange(a, trim_end(s, s.len() as int, a))
}

proof fn lemma_trim_start_bounds(s: Seq<char>, i: int)
    requires
        0 <= i <= s.len(),
    ensures
        i <= trim_start(s, i) <= s.len(),
    decreases s.len() - i,
{
    if i < s.len() && is_white_space(s[i]) {
        lemma_trim_start_bounds(s, i + 1);
    }
}

proof fn lemma_trim_end_bounds(s: Seq<char>, j: int, lo: int)
    requires
        0 <= lo <= j <= s.len(),
    ensures
        lo <= trim_end(s, j, lo) <= j,
    decreases j - lo,
{
    if j > lo && is_white_space(s[j - 1]) {
        lemma_trim_end_bounds(s, j - 1, lo);
    }
}

/// `s` without its leading and trailing white space, as `str::trim` gives it.
pub fn trimmed(s: &str) -> (r: String)
    ensures
        r@ == trim_spec(s@),
{
    let n = s.unicode_len();
    let mut i: usize = 0;
    proof {
        lemma_trim_start_bounds(s@, 0);
    }
    while i < n && is_white_space_exec(s.get_char(i))
        invariant
            n == s@.len(),
            0 <= i <= trim_start(s@, 0) <= n,
            trim_start(s@, i as int) == trim_start(s@, 0),
        decreases n - i,
    {
        proof {
            lemma_trim_start_bounds(s@, i + 1);
        }
        i = i + 1;
    }
    assert(i == trim_start(s@, 0));
    let mut j: usize = n;
    proof {
        lemma_trim_end_bounds(s@, n as int, i as int);
    }
    while j > i && is_white_space_exec(s.get_char(j - 1))
        invariant
            n == s@.len(),
            i == trim_start(s@, 0),
            i <= trim_end(s@, n as int, i as int) <= j <= n,
            trim_end(s@, j as int, i as int) == trim_end(s@, n as int, i as int),
        decreases j,
    {
        proof {
            lemma_trim_end_bounds(s@, j - 1, i as int);
        }
        j = j - 1;
    }
    assert(j == trim_end(s@, n as int, i as int));
    s.substring_char(i, j).to_owned()
}

/// The non-empty parts among the first `n`, each followed by a space but the
/// last one.
pub open spec fn join_nonempty(parts: Seq<Seq<char>>, n: nat) -> Seq<char>
    decreases n,
{
    if n == 0 {
        Seq::empty()
    } else {
        let rest = join_nonempty(parts, (n - 1) as nat);
        let p = parts[n - 1];
        if p.len() == 0 {
            rest
        } else if rest.len() == 0 {
            p
        } else {
            rest + seq![' '] + p
        }
    }
}

/// Joins the non-empty parts with single spaces.
pub fn join_words(parts: &Vec<String>) -> (r: String)
    ensures
        r@ == join_nonempty(parts@.map_values(|p: String| p@), parts@.len()),
{
    let ghost views = parts@.map_values(|p: String| p@);
    let mut r = String::new();
    let mut i: usize = 0;
    while i < parts.len()
        invariant
            i <= parts@.len(),
            views == parts@.map_values(|p: String| p@),
            r@ == join_nonempty(views, i as nat),
        decreases parts@.len() - i,
    {
        proof {
            reveal_strlit(" ");
        }
        assert(" "@ =~= seq![' ']);
        let p = parts[i].as_str();
        assert(views[i as int] == p@);
        let ghost rest = r@;
        if p.unicode_len() > 0 {
            if r.as_str().unicode_len() > 0 {
                r.append(" ");
            }
            r.append(p);
        }
        assert(join_nonempty(views, (i + 1) as nat) == if p@.len() == 0 {
            rest
        } else if rest.len() == 0 {
            p@
        } else {
            rest + seq![' '] + p@
        });
        i = i + 1;
    }
    r
}

/// The make, model and serial of an output, each trimmed, the empty ones
/// left out, joined with spaces.
pub fn make_model_serial(make: &str, model: &str, serial: &str) -> (r: String)
    ensures
        r@ == join_nonempty(seq![trim_spec(make@), trim_spec(model@), trim_spec(serial@)], 3),
{
    let mut parts: Vec<String> = Vec::new();
    parts.push(trimmed(make));
    parts.push(trimmed(model));
    parts.push(trimmed(serial));
    let r = join_words(&parts);
    assert(parts@.map_values(|p: String| p@) =~= seq![trim_spec(make@), trim_spec(model@), trim_spec(serial@)]);
    r
}

/// The decimal digits of `n`, without leading zeros; `0` for zero.
pub open spec fn decimal(n: nat) -> Seq<char>
    decreases n,
{
    if n < 10 {
        seq![(n + '0' as nat) as char]
    } else {
        decimal(n / 10).push(((n % 10) + '0' as nat) as char)
    }
}

fn digit_str(d: u64) -> (r: &'static str)
    requires
        d < 10,
    ensures
        r@ == seq![(d + '0' as nat) as char],
{
    proof {
        reveal_strlit("0"); reveal_strlit("1"); reveal_strlit("2"); reveal_strlit("3");
        reveal_strlit("4"); reveal_strlit("5"); reveal_strlit("6"); reveal_strlit("7");
        reveal_strlit("8"); reveal_strlit("9");
    }
    match d {
        0 => "0", 1 => "1", 2 => "2", 3 => "3", 4 => "4", 5 => "5", 6 => "6", 7 => "7",
        8 => "8", _ => "9",
    }
}

/// Formats `n` in decimal.
pub fn decimal_string(n: u64) -> (r: String)
    ensures
        r@ == decimal(n as nat),
    decreases n,
{
    if n < 10 {
        let mut r = String::new();
        r.append(digit_str(n));
        r
    } else {
        let mut r = decimal_string(n / 10);
        r.append(digit_str(n % 10));
        r
    }
}

/// A niri workspace as its IPC reports it.
pub struct NiriWorkspace {
    pub id: u64,
    pub idx: u8,
    pub name: Option<String>,
    pub output: Option<String>,
    pub is_active: bool,
}

/// The visible workspace that a niri workspace stands for: named by its name,
/// else by its index.
pub open spec fn niri_visible_spec(w: NiriWorkspace, r: WorkspaceVisible) -> bool {
    &&& r.output@ == match w.output {
        Some(o) => o@,
        None => Seq::empty(),
    }
    &&& r.workspace_name@ == match w.name {
        Some(n) => n@,
        None => decimal(w.idx as nat),
    }
    &&& r.workspace_number == w.idx as i32
}

/// `picked` lists, in order, the indices of the active workspaces, and `r`
/// holds what each stands for.
pub open spec fn niri_picks(ws: Seq<NiriWorkspace>, r: Seq<WorkspaceVisible>, picked: Seq<int>) -> bool {
    &&& picked.len() == r.len()
    &&& forall|j: int|
        0 <= j < picked.len() ==> 0 <= #[trigger] picked[j] < ws.len() && ws[picked[j]].is_active
            && niri_visible_spec(ws[picked[j]], r[j])
    &&& forall|j: int, k: int| 0 <= j < k < picked.len() ==> picked[j] < picked[k]
    &&& forall|i: int| 0 <= i < ws.len() && ws[i].is_active ==> picked.contains(i)
}

fn niri_visible(w: &NiriWorkspace) -> (r: WorkspaceVisible)
    ensures
        niri_visible_spec(*w, r),
{
    let output = match &w.output {
        Some(o) => o.clone(),
        None => String::new(),
    };
    let workspace_name = match &w.name {
        Some(n) => n.clone(),
        None => decimal_string(w.idx as u64),
    };
    WorkspaceVisible { output, workspace_name, workspace_number: w.idx as i32 }
}

/// The active niri workspaces, in order, as visible workspaces.
pub fn niri_visible_workspaces(workspaces: &Vec<NiriWorkspace>) -> (r: Vec<WorkspaceVisible>)
    ensures
        exists|picked: Seq<int>| #[trigger] niri_picks(workspaces@, r@, picked),
{
    let mut r: Vec<WorkspaceVisible> = Vec::new();
    let ghost mut picked: Seq<int> = Seq::empty();
    let mut i: usize = 0;
    while i < workspaces.len()
        invariant
            i <= workspaces@.len(),
            picked.len() == r@.len(),
            forall|j: int| 0 <= j < picked.len() ==> 0 <= #[trigger] picked[j] < i && workspaces@[picked[j]].is_active
                && niri_visible_spec(workspaces@[picked[j]], r@[j]),
            forall|j: int, k: int| 0 <= j < k < picked.len() ==> picked[j] < picked[k],
            forall|m: int| 0 <= m < i && workspaces@[m].is_active ==> picked.contains(m),
        decreases workspaces@.len() - i,
    {
        if workspaces[i].is_active {
            let ghost before = picked;
            r.push(niri_visible(&workspaces[i]));
            proof {
                picked = picked.push(i as int);
                assert(picked[picked.len() - 1] == i);
                assert forall|m: int| 0 <= m < i + 1 && workspaces@[m].is_active implies picked.contains(m) by {
                    if m < i {
                        assert(before.contains(m));
                        let j = choose|j: int| 0 <= j < before.len() && before[j] == m;
                        assert(picked[j] == m);
                    }
                }
            }
        }
        i = i + 1;
    }
    assert(niri_picks(workspaces@, r@, picked));
    r
}

/// The visible workspace of the niri workspace `id`, if it is known.
pub fn find_workspace(workspaces: &Vec<NiriWorkspace>, id: u64) -> (r: Option<WorkspaceVisible>)
    ensures
        r matches Some(v) ==> exists|i: int|
            0 <= i < workspaces@.len() && workspaces@[i].id == id && (forall|k: int|
                0 <= k < i ==> workspaces@[k].id != id) && niri_visible_spec(workspaces@[i], v),
        r is None ==> forall|k: int| 0 <= k < workspaces@.len() ==> workspaces@[k].id != id,
{
    let mut i: usize = 0;
    while i < workspaces.len()
        invariant
            i <= workspaces@.len(),
            forall|k: int| 0 <= k < i ==> workspaces@[k].id != id,
        decreases workspaces@.len() - i,
    {
        if workspaces[i].id == id {
            return Some(niri_visible(&workspaces[i]));
        }
        i = i + 1;
    }
    None
}

/// The first workspace of `workspaces` on output `output`.
pub fn visible_workspace_on_output(workspaces: &Vec<WorkspaceVisible>, output: &str) -> (r: Option<usize>)
    ensures
        r matches Some(i) ==> i < workspaces@.len() && workspaces@[i as int].output@ == output@ && forall|k: int|
            0 <= k < i ==> workspaces@[k].output@ != output@,
        r is None ==> forall|k: int| 0 <= k < workspaces@.len() ==> workspaces@[k].output@ != output@,
{
    let name = output.to_owned();
    let mut i: usize = 0;
    while i < workspaces.len()
        invariant
            i <= workspaces@.len(),
            name@ == output@,
            forall|k: int| 0 <= k < i ==> workspaces@[k].output@ != output@,
        decreases workspaces@.len() - i,
    {
        if workspaces[i].output == name {
            return Some(i);
        }
        i = i + 1;
    }
    None
}

/// The make, model and serial of output `output_name`; empty if it is not
/// listed.
pub fn make_model_serial_of(outputs: &Vec<OutputInfo>, output_name: &str) -> (r: String)
    ensures
        (exists|i: int|
            0 <= i < outputs@.len() && outputs@[i].name@ == output_name@ && (forall|k: int|
                0 <= k < i ==> outputs@[k].name@ != output_name@) && r@ == outputs@[i].make_model_serial@)
            || ((forall|k: int| 0 <= k < outputs@.len() ==> outputs@[k].name@ != output_name@) && r@.len()
            == 0),
{
    let name = output_name.to_owned();
    let mut i: usize = 0;
    while i < outputs.len()
        invariant
            i <= outputs@.len(),
            name@ == output_name@,
            forall|k: int| 0 <= k < i ==> outputs@[k].name@ != output_name@,
        decreases outputs@.len() - i,
    {
        if outputs[i].name == name {
            let r = outputs[i].make_model_serial.clone();
            assert(outputs@[i as int].name@ == output_name@ && r@ == outputs@[i as int].make_model_serial@);
            return r;
        }
        i = i + 1;
    }
    String::new()
}

/// The operations of a compositor backend: what is visible now, which outputs
/// exist.
pub trait CompositorInterface {
    fn request_visible_workspaces(&mut self) -> Vec<WorkspaceVisible>;

    fn request_outputs(&mut self) -> Vec<OutputInfo>;
}

/// Queries a compositor backend and collects the workspace events to deliver.
pub struct ConnectionTask<I> {
    pub interface: I,
    /// Events not yet taken for delivery, oldest first.
    pub events: Vec<WorkspaceVisible>,
}

impl<I: CompositorInterface> ConnectionTask<I> {
    pub fn new(interface: I) -> (r: ConnectionTask<I>)
        ensures
            r.interface == interface,
            r.events@.len() == 0,
    {
        ConnectionTask { interface, events: Vec::new() }
    }

    /// Queues the workspace visible on `output`, if the compositor lists one.
    pub fn request_visible_workspace(&mut self, output: &str)
        ensures
            final(self).events@ == old(self).events@ || (final(self).events@.len() == old(self).events@.len()
                + 1 && final(self).events@.drop_last() == old(self).events@
                && final(self).events@.last().output@ == output@),
    {
        let mut workspaces = self.interface.request_visible_workspaces();
        if let Some(i) = visible_workspace_on_output(&workspaces, output) {
            let w = workspaces.remove(i);
            let ghost before = self.events@;
            self.events.push(w);
            assert(self.events@.drop_last() =~= before);
        }
    }

    /// Queues every visible workspace that the compositor lists.
    pub fn request_visible_workspaces(&mut self)
        ensures
            final(self).events@.len() >= old(self).events@.len(),
            final(self).events@.subrange(0, old(self).events@.len() as int) == old(self).events@,
    {
        let mut workspaces = self.interface.request_visible_workspaces();
        self.events.append(&mut workspaces);
    }

    /// The make, model and serial of output `output_name` as the compositor
    /// lists it; empty if it does not.
    pub fn request_make_model_serial(&mut self, output_name: &str) -> (r: String)
        ensures
            final(self).events@ == old(self).events@,
    {
        let outputs = self.interface.request_outputs();
        make_model_serial_of(&outputs, output_name)
    }

    /// Takes the queued events, oldest first.
    pub fn take_events(&mut self) -> (r: Vec<WorkspaceVisible>)
        ensures
            r@ == old(self).events@,
            final(self).events@.len() == 0,
    {
        let mut taken: Vec<WorkspaceVisible> = Vec::new();
        std::mem::swap(&mut self.events, &mut taken);
        taken
    }
}

/// The niri backend for the IPC of version 25.05 and later.
pub struct NiriConnectionTask {}

impl NiriConnectionTask {
    pub fn new() -> (r: NiriConnectionTask) {
        NiriConnectionTask {  }
    }
}

/// A sway workspace as its IPC reports it.
pub struct SwayWorkspace {
    pub name: String,
    pub num: i32,
    pub output: String,
    pub visible: bool,
}

/// `picked` lists, in order, the indices of the visible workspaces, and `r`
/// holds each one's output, name and number.
pub open spec fn sway_picks(ws: Seq<SwayWorkspace>, r: Seq<WorkspaceVisible>, picked: Seq<int>) -> bool {
    &&& picked.len() == r.len()
    &&& forall|j: int|
        0 <= j < picked.len() ==> 0 <= #[trigger] picked[j] < ws.len() && ws[picked[j]].visible
            && r[j].output == ws[picked[j]].output && r[j].workspace_name == ws[picked[j]].name
            && r[j].workspace_number == ws[picked[j]].num
    &&& forall|j: int, k: int| 0 <= j < k < picked.len() ==> picked[j] < picked[k]
    &&& forall|i: int| 0 <= i < ws.len() && ws[i].visible ==> picked.contains(i)
}

/// The visible sway workspaces, in order.
pub fn sway_visible_workspaces(workspaces: Vec<SwayWorkspace>) -> (r: Vec<WorkspaceVisible>)
    ensures
        exists|picked: Seq<int>| #[trigger] sway_picks(workspaces@, r@, picked),
{
    let ghost orig = workspaces@;
    let mut rest = workspaces;
    let mut r: Vec<WorkspaceVisible> = Vec::new();
    let ghost mut picked: Seq<int> = Seq::empty();
    let mut i: usize = 0;
    let n = rest.len();
    while rest.len() > 0
        invariant
            n == orig.len(),
            i + rest@.len() == n,
            rest@ == orig.subrange(i as int, n as int),
            picked.len() == r@.len(),
            forall|j: int| 0 <= j < picked.len() ==> 0 <= #[trigger] picked[j] < i && orig[picked[j]].visible
                && r@[j].output == orig[picked[j]].output && r@[j].workspace_name == orig[picked[j]].name
                && r@[j].workspace_number == orig[picked[j]].num,
            forall|j: int, k: int| 0 <= j < k < picked.len() ==> picked[j] < picked[k],
            forall|m: int| 0 <= m < i && orig[m].visible ==> picked.contains(m),
        decreases rest@.len(),
    {
        let w = rest.remove(0);
        assert(w == orig[i as int]);
        if w.visible {
            let ghost before = picked;
            r.push(WorkspaceVisible { output: w.output, workspace_name: w.name, workspace_number: w.num });
            proof {
                picked = picked.push(i as int);
                assert(picked[picked.len() - 1] == i);
                assert forall|m: int| 0 <= m < i + 1 && orig[m].visible implies picked.contains(m) by {
                    if m < i {
                        assert(before.contains(m));
                        let j = choose|j: int| 0 <= j < before.len() && before[j] == m;
                        assert(picked[j] == m);
                    }
                }
            }
        }
        assert(rest@ =~= orig.subrange(i + 1, n as int));
        i = i + 1;
    }
    assert(sway_picks(orig, r@, picked));
    r
}

} // verus!
