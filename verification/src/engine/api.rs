//! Reading the kernel's rule listing and the version report built on it.
use vstd::prelude::*;

use crate::defs;
use crate::strset::{insert_sorted, seq_lt, sorted_unique, string_views, strictly_sorted};
use crate::text::{
    char_views, chars_of, int_decimal, join_space, join_space_strings, next_index,
    lemma_next_index, parse_i32, parse_i32_chars, push_i64, split_on, split_on_chars, split_ws,
    split_ws_chars, starts_with, starts_with_chars, string_from_chars, trim, trim_chars,
};

verus! {

/// One rule of the kernel's listing.
#[derive(Debug, Clone, PartialEq, Eq)]
pub struct HymofsRuleEntry {
    pub rule_type: String,
    pub target: Option<String>,
    pub source: Option<String>,
    pub path: Option<String>,
    pub args: Option<String>,
    pub file_type: Option<i32>,
}

/// A rule entry as character sequences.
pub struct RuleEntryView {
    pub rule_type: Seq<char>,
    pub target: Option<Seq<char>>,
    pub source: Option<Seq<char>>,
    pub path: Option<Seq<char>>,
    pub args: Option<Seq<char>>,
    pub file_type: Option<i32>,
}

pub open spec fn opt_view(o: Option<String>) -> Option<Seq<char>> {
    match o {
        Some(s) => Some(s@),
        None => None,
    }
}

impl View for HymofsRuleEntry {
    type V = RuleEntryView;

    open spec fn view(&self) -> RuleEntryView {
        RuleEntryView {
            rule_type: self.rule_type@,
            target: opt_view(self.target),
            source: opt_view(self.source),
            path: opt_view(self.path),
            args: opt_view(self.args),
            file_type: self.file_type,
        }
    }
}

/// What `str::to_uppercase` returns for a string.
pub uninterp spec fn uppercase_of(s: Seq<char>) -> Seq<char>;

/// Upper-cases `s` with `str::to_uppercase`; the result is named
/// `uppercase_of`, whose Unicode case mapping is not written out here.
#[verifier::external_body]
fn to_uppercase(s: &str) -> (r: String)
    ensures
        r@ == uppercase_of(s@),
{
    s.to_uppercase()
}

pub open spec fn word_at(ws: Seq<Seq<char>>, i: int) -> Option<Seq<char>> {
    if 0 <= i < ws.len() {
        Some(ws[i])
    } else {
        None
    }
}

/// The entry for a line whose upper-cased first word is `kind` and whose
/// other words are `rest`.
pub open spec fn entry_spec(kind: Seq<char>, rest: Seq<Seq<char>>) -> RuleEntryView {
    if kind == "ADD"@ {
        RuleEntryView {
            rule_type: kind,
            target: word_at(rest, 0),
            source: word_at(rest, 1),
            path: None,
            args: None,
            file_type: if rest.len() > 2 {
                parse_i32(rest[2])
            } else {
                None
            },
        }
    } else if kind == "MERGE"@ {
        RuleEntryView {
            rule_type: kind,
            target: word_at(rest, 0),
            source: word_at(rest, 1),
            path: None,
            args: None,
            file_type: None,
        }
    } else if kind == "HIDE"@ || kind == "INJECT"@ {
        RuleEntryView {
            rule_type: kind,
            target: None,
            source: None,
            path: word_at(rest, 0),
            args: None,
            file_type: None,
        }
    } else {
        RuleEntryView {
            rule_type: kind,
            target: None,
            source: None,
            path: None,
            args: if rest.len() == 0 {
                None
            } else {
                Some(join_space(rest))
            },
            file_type: None,
        }
    }
}

/// The entry a listing line gives, if any: blank lines and the two header
/// lines give none.
pub open spec fn line_entry(line: Seq<char>) -> Option<RuleEntryView> {
    let t = trim(line);
    let ws = split_ws(t);
    if t.len() == 0 || starts_with(t, "HymoFS Protocol:"@) || starts_with(t, "HymoFS Enabled:"@)
        || ws.len() == 0 {
        None
    } else {
        Some(entry_spec(uppercase_of(ws[0]), ws.drop_first()))
    }
}

/// The entries of the listed lines, in order.
pub open spec fn lines_entries(lines: Seq<Seq<char>>) -> Seq<RuleEntryView>
    decreases lines.len(),
{
    if lines.len() == 0 {
        Seq::empty()
    } else {
        let prev = lines_entries(lines.drop_last());
        match line_entry(lines.last()) {
            Some(e) => prev.push(e),
            None => prev,
        }
    }
}

pub open spec fn entry_views(v: Seq<HymofsRuleEntry>) -> Seq<RuleEntryView> {
    v.map_values(|e: HymofsRuleEntry| e@)
}

fn word_string(words: &Vec<Vec<char>>, i: usize) -> (r: Option<String>)
    ensures
        opt_view(r) == word_at(char_views(words@), i as int),
{
    if i < words.len() {
        Some(string_from_chars(&words[i]))
    } else {
        None
    }
}

/// The entry for an upper-cased rule kind and the words that follow it.
pub fn rule_entry_from_words(rule_type: String, rest: &Vec<Vec<char>>) -> (r: HymofsRuleEntry)
    ensures
        r@ == entry_spec(rule_type@, char_views(rest@)),
{
    let ghost ws = char_views(rest@);
    let add = String::from_str("ADD");
    let merge = String::from_str("MERGE");
    let hide = String::from_str("HIDE");
    let inject = String::from_str("INJECT");
    if rule_type == add {
        let target = word_string(rest, 0);
        let source = word_string(rest, 1);
        let file_type = if rest.len() > 2 {
            parse_i32_chars(&rest[2])
        } else {
            None
        };
        HymofsRuleEntry { rule_type, target, source, path: None, args: None, file_type }
    } else if rule_type == merge {
        let target = word_string(rest, 0);
        let source = word_string(rest, 1);
        HymofsRuleEntry { rule_type, target, source, path: None, args: None, file_type: None }
    } else if rule_type == hide || rule_type == inject {
        let path = word_string(rest, 0);
        HymofsRuleEntry { rule_type, target: None, source: None, path, args: None, file_type: None }
    } else {
        let mut words: Vec<String> = Vec::new();
        let mut i: usize = 0;
        while i < rest.len()
            invariant
                i <= rest@.len(),
                ws == char_views(rest@),
                words@.map_values(|w: String| w@) == ws.take(i as int),
            decreases rest@.len() - i,
        {
            let w = string_from_chars(&rest[i]);
            assert(w@ == ws[i as int]);
            let ghost prev = words@;
            words.push(w);
            assert(ws.take(i + 1) =~= ws.take(i as int).push(ws[i as int]));
            assert(words@.map_values(|w: String| w@) =~= prev.map_values(|w: String| w@).push(
                ws[i as int],
            ));
            i = i + 1;
        }
        assert(ws.take(rest@.len() as int) =~= ws);
        let args = if rest.len() == 0 {
            None
        } else {
            Some(join_space_strings(&words))
        };
        HymofsRuleEntry { rule_type, target: None, source: None, path: None, args, file_type: None }
    }
}

/// The entry a single listing line gives, if any.
fn parse_rule_line(line: &Vec<char>) -> (r: Option<HymofsRuleEntry>)
    ensures
        match r {
            Some(e) => line_entry(line@) == Some(e@),
            None => line_entry(line@) is None,
        },
{
    let t = trim_chars(line);
    let p1 = chars_of("HymoFS Protocol:");
    let p2 = chars_of("HymoFS Enabled:");
    let ws = split_ws_chars(&t);
    if t.len() == 0 || starts_with_chars(&t, &p1) || starts_with_chars(&t, &p2) || ws.len() == 0 {
        return None;
    }
    let kind_raw = string_from_chars(&ws[0]);
    let rule_type = to_uppercase(kind_raw.as_str());
    let mut rest: Vec<Vec<char>> = Vec::new();
    let mut i: usize = 1;
    while i < ws.len()
        invariant
            1 <= i <= ws@.len(),
            char_views(rest@) == char_views(ws@).subrange(1, i as int),
        decreases ws@.len() - i,
    {
        let w = copy_words_entry(&ws, i);
        let ghost prev = char_views(rest@);
        rest.push(w);
        assert(char_views(rest@) =~= prev.push(char_views(ws@)[i as int]));
        assert(char_views(ws@).subrange(1, i + 1) =~= char_views(ws@).subrange(1, i as int).push(
            char_views(ws@)[i as int],
        ));
        i = i + 1;
    }
    assert(char_views(ws@).subrange(1, ws@.len() as int) =~= char_views(ws@).drop_first());
    Some(rule_entry_from_words(rule_type, &rest))
}

fn copy_words_entry(ws: &Vec<Vec<char>>, i: usize) -> (r: Vec<char>)
    requires
        i < ws@.len(),
    ensures
        r@ == ws@[i as int]@,
{
    ws[i].clone()
}

/// The rules of the kernel's listing, one per line that is neither blank
/// nor a header line (`HymoFS Protocol:` or `HymoFS Enabled:`), in order.
/// A line's first word, upper-cased, is the rule type; `ADD` takes a target,
/// a source and a file type, `MERGE` a target and a source, `HIDE` and
/// `INJECT` a path, and any other type keeps the remaining words, joined by
/// single spaces, as its arguments.
pub fn parse_hymofs_rule_listing(listing: &str) -> (r: Vec<HymofsRuleEntry>)
    ensures
        entry_views(r@) == lines_entries(split_on(listing@, '\n')),
{
    let all = chars_of(listing);
    let lines = split_on_chars(&all, '\n');
    let ghost lv = char_views(lines@);
    let mut rules: Vec<HymofsRuleEntry> = Vec::new();
    let mut i: usize = 0;
    while i < lines.len()
        invariant
            i <= lines@.len(),
            lv == char_views(lines@),
            entry_views(rules@) == lines_entries(lv.take(i as int)),
        decreases lines@.len() - i,
    {
        let e = parse_rule_line(&lines[i]);
        let ghost prev = entry_views(rules@);
        proof {
            assert(lv.take(i + 1).drop_last() =~= lv.take(i as int));
            assert(lv.take(i + 1).last() == lines@[i as int]@);
        }
        match e {
            Some(entry) => {
                rules.push(entry);
                assert(entry_views(rules@) =~= prev.push(entry@));
            },
            None => {},
        }
        i = i + 1;
    }
    assert(lv.take(lines@.len() as int) =~= lv);
    rules
}

/// `s` without its trailing `c` characters (`str::trim_end_matches`).
pub open spec fn rstrip_char(s: Seq<char>, c: char) -> Seq<char>
    decreases s.len(),
{
    if s.len() > 0 && s.last() == c {
        rstrip_char(s.drop_last(), c)
    } else {
        s
    }
}

/// The path with its trailing slashes removed and one slash added.
pub open spec fn dir_prefix(p: Seq<char>) -> Seq<char> {
    rstrip_char(p, '/') + seq!['/']
}

/// The first `/`-separated segment of `s`.
pub open spec fn first_segment(s: Seq<char>) -> Seq<char> {
    s.take(next_index(s, '/', 0))
}

/// The module named by the first segment after `prefix`, when that is
/// not empty.
pub open spec fn id_after(source: Seq<char>, prefix: Seq<char>) -> Option<Seq<char>> {
    let seg = first_segment(source.skip(prefix.len() as int));
    if seg.len() > 0 {
        Some(seg)
    } else {
        None
    }
}

/// The module a rule source belongs to: the first segment below the
/// modules directory, else below the mirror directory.
pub open spec fn module_id_of_source(source: Seq<char>, mirror: Seq<char>) -> Option<Seq<char>> {
    let mp = dir_prefix(defs::MODULES_DIR@);
    let rp = dir_prefix(mirror);
    if starts_with(source, mp) {
        id_after(source, mp)
    } else if starts_with(source, rp) {
        id_after(source, rp)
    } else {
        None
    }
}

fn dir_prefix_chars(p: &str) -> (r: Vec<char>)
    ensures
        r@ == dir_prefix(p@),
{
    let v = chars_of(p);
    let mut n = v.len();
    assert(v@.take(n as int) =~= v@);
    while n > 0 && v[n - 1] == '/'
        invariant
            n <= v@.len(),
            rstrip_char(v@.take(n as int), '/') == rstrip_char(v@, '/'),
        decreases n,
    {
        assert(v@.take(n as int).drop_last() =~= v@.take(n - 1));
        n = n - 1;
    }
    let mut out = crate::text::copy_range(&v, 0, n);
    assert(v@.take(v@.len() as int) =~= v@);
    assert(out@ =~= v@.take(n as int));
    assert(rstrip_char(v@.take(n as int), '/') == v@.take(n as int));
    out.push('/');
    out
}

fn id_after_exec(source: &Vec<char>, plen: usize) -> (r: Option<String>)
    requires
        plen <= source@.len(),
    ensures
        opt_view(r) == id_after(source@, source@.take(plen as int)),
{
    let mut j = plen;
    let ghost rest = source@.skip(plen as int);
    while j < source.len() && source[j] != '/'
        invariant
            plen <= j <= source@.len(),
            rest == source@.skip(plen as int),
            next_index(rest, '/', j - plen) == next_index(rest, '/', 0),
        decreases source@.len() - j,
    {
        j = j + 1;
    }
    proof {
        lemma_next_index(rest, '/', 0);
        assert(next_index(rest, '/', j - plen) == j - plen);
    }
    if j > plen {
        let seg = crate::text::copy_range(source, plen, j);
        assert(seg@ =~= rest.take(j - plen));
        Some(string_from_chars(&seg))
    } else {
        None
    }
}

/// The module a rule source belongs to, as `module_id_of_source` says.
pub fn extract_module_id_from_source(source: &str, mirror_path: &str) -> (r: Option<String>)
    ensures
        opt_view(r) == module_id_of_source(source@, mirror_path@),
{
    let s = chars_of(source);
    let mp = dir_prefix_chars(defs::MODULES_DIR);
    if starts_with_chars(&s, &mp) {
        return id_after_exec(&s, mp.len());
    }
    let rp = dir_prefix_chars(mirror_path);
    if starts_with_chars(&s, &rp) {
        return id_after_exec(&s, rp.len());
    }
    None
}

/// The modules named by the sources of `rules`.
pub open spec fn rule_module_ids(rules: Seq<RuleEntryView>, mirror: Seq<char>) -> Set<Seq<char>> {
    Set::new(
        |id: Seq<char>|
            exists|i: int|
                0 <= i < rules.len() && (#[trigger] rules[i]).source is Some
                    && module_id_of_source(rules[i].source->0, mirror) == Some(id),
    )
}

/// The distinct modules that the rules' sources belong to, sorted.
pub fn extract_active_module_ids(rules: &Vec<HymofsRuleEntry>, mirror_path: &str) -> (r: Vec<String>)
    ensures
        strictly_sorted(string_views(r@)),
        string_views(r@).to_set() == rule_module_ids(entry_views(rules@), mirror_path@),
{
    let ghost rv = entry_views(rules@);
    let mut out: Vec<String> = Vec::new();
    let mut i: usize = 0;
    while i < rules.len()
        invariant
            i <= rules@.len(),
            rv == entry_views(rules@),
            strictly_sorted(string_views(out@)),
            string_views(out@).to_set() == rule_module_ids(rv.take(i as int), mirror_path@),
        decreases rules@.len() - i,
    {
        let ghost before = string_views(out@).to_set();
        match &rules[i].source {
            Some(src) => {
                match extract_module_id_from_source(src.as_str(), mirror_path) {
                    Some(id) => {
                        let ghost idv = id@;
                        insert_sorted(&mut out, id);
                        assert(rule_module_ids(rv.take(i + 1), mirror_path@) =~= before.insert(
                            idv,
                        )) by {
                            assert(rv.take(i + 1)[i as int] == rv[i as int]);
                            assert forall|x: Seq<char>|
                                rule_module_ids(rv.take(i + 1), mirror_path@).contains(
                                    x,
                                ) implies before.insert(idv).contains(x) by {
                                let k = choose|k: int|
                                    0 <= k < i + 1 && (#[trigger] rv.take(i + 1)[k]).source is Some
                                        && module_id_of_source(
                                        rv.take(i + 1)[k].source->0,
                                        mirror_path@,
                                    ) == Some(x);
                                if k < i {
                                    assert(rv.take(i as int)[k] == rv.take(i + 1)[k]);
                                }
                            }
                            assert forall|x: Seq<char>| before.insert(idv).contains(
                                x,
                            ) implies rule_module_ids(rv.take(i + 1), mirror_path@).contains(x) by {
                                if x != idv {
                                    let k = choose|k: int|
                                        0 <= k < i && (#[trigger] rv.take(i as int)[k]).source is Some
                                            && module_id_of_source(
                                            rv.take(i as int)[k].source->0,
                                            mirror_path@,
                                        ) == Some(x);
                                    assert(rv.take(i + 1)[k] == rv.take(i as int)[k]);
                                }
                            }
                        }
                    },
                    None => {
                        assert(rule_module_ids(rv.take(i + 1), mirror_path@) =~= before) by {
                            assert(rv.take(i + 1)[i as int] == rv[i as int]);
                            assert forall|x: Seq<char>|
                                rule_module_ids(rv.take(i + 1), mirror_path@).contains(
                                    x,
                                ) implies before.contains(x) by {
                                let k = choose|k: int|
                                    0 <= k < i + 1 && (#[trigger] rv.take(i + 1)[k]).source is Some
                                        && module_id_of_source(
                                        rv.take(i + 1)[k].source->0,
                                        mirror_path@,
                                    ) == Some(x);
                                assert(k != i);
                                assert(rv.take(i as int)[k] == rv.take(i + 1)[k]);
                            }
                            assert forall|x: Seq<char>| before.contains(
                                x,
                            ) implies rule_module_ids(rv.take(i + 1), mirror_path@).contains(x) by {
                                let k = choose|k: int|
                                    0 <= k < i && (#[trigger] rv.take(i as int)[k]).source is Some
                                        && module_id_of_source(
                                        rv.take(i as int)[k].source->0,
                                        mirror_path@,
                                    ) == Some(x);
                                assert(rv.take(i + 1)[k] == rv.take(i as int)[k]);
                            }
                        }
                    },
                }
            },
            None => {
                assert(rule_module_ids(rv.take(i + 1), mirror_path@) =~= before) by {
                    assert(rv.take(i + 1)[i as int] == rv[i as int]);
                    assert forall|x: Seq<char>|
                        rule_module_ids(rv.take(i + 1), mirror_path@).contains(
                            x,
                        ) implies before.contains(x) by {
                        let k = choose|k: int|
                            0 <= k < i + 1 && (#[trigger] rv.take(i + 1)[k]).source is Some
                                && module_id_of_source(
                                rv.take(i + 1)[k].source->0,
                                mirror_path@,
                            ) == Some(x);
                        assert(k != i);
                        assert(rv.take(i as int)[k] == rv.take(i + 1)[k]);
                    }
                    assert forall|x: Seq<char>| before.contains(x) implies rule_module_ids(
                        rv.take(i + 1),
                        mirror_path@,
                    ).contains(x) by {
                        let k = choose|k: int|
                            0 <= k < i && (#[trigger] rv.take(i as int)[k]).source is Some
                                && module_id_of_source(
                                rv.take(i as int)[k].source->0,
                                mirror_path@,
                            ) == Some(x);
                        assert(rv.take(i + 1)[k] == rv.take(i as int)[k]);
                    }
                }
            },
        }
        i = i + 1;
    }
    assert(rv.take(rules@.len() as int) =~= rv);
    out
}


/// The protocol version this program speaks.
pub const HYMO_PROTOCOL_VERSION: i32 = 14;

/// What a probe of the kernel side found.
#[derive(Debug, Clone, Copy, PartialEq, Eq, Structural)]
pub enum HymoFsStatus {
    Available,
    NotPresent,
    KernelTooOld,
    ModuleTooOld,
}

/// The number a status is reported as.
pub fn status_code(status: HymoFsStatus) -> (r: i32)
    ensures
        r == match status {
            HymoFsStatus::Available => 0i32,
            HymoFsStatus::NotPresent => 1i32,
            HymoFsStatus::KernelTooOld => 2i32,
            HymoFsStatus::ModuleTooOld => 3i32,
        },
{
    match status {
        HymoFsStatus::Available => 0,
        HymoFsStatus::NotPresent => 1,
        HymoFsStatus::KernelTooOld => 2,
        HymoFsStatus::ModuleTooOld => 3,
    }
}

pub open spec fn unwrap_or_zero(v: Option<i32>) -> i32 {
    match v {
        Some(x) => x,
        None => 0,
    }
}

/// The message that explains a protocol difference, if there is one.
pub open spec fn mismatch_message_spec(status: HymoFsStatus, kernel_version: Option<i32>) -> Option<
    Seq<char>,
> {
    let kv = int_decimal(unwrap_or_zero(kernel_version) as int);
    let uv = int_decimal(HYMO_PROTOCOL_VERSION as int);
    match status {
        HymoFsStatus::KernelTooOld => Some(
            "kernel protocol "@ + kv + " is older than userspace api"@ + uv,
        ),
        HymoFsStatus::ModuleTooOld => Some(
            "kernel protocol "@ + kv + " is newer than userspace api"@ + uv,
        ),
        HymoFsStatus::Available => match kernel_version {
            Some(v) => if v != HYMO_PROTOCOL_VERSION {
                Some("protocol mismatch: userspace api"@ + uv + ", kernel api"@ + int_decimal(v as int))
            } else {
                None
            },
            None => None,
        },
        HymoFsStatus::NotPresent => None,
    }
}

fn protocol_text(first: &str, kernel_version: i32, second: &str) -> (r: String)
    ensures
        r@ == first@ + int_decimal(kernel_version as int) + second@ + int_decimal(
            HYMO_PROTOCOL_VERSION as int,
        ),
{
    let mut out = String::from_str(first);
    push_i64(&mut out, kernel_version as i64);
    out.append(second);
    push_i64(&mut out, HYMO_PROTOCOL_VERSION as i64);
    out
}

/// The message that explains a protocol difference, as
/// `mismatch_message_spec` says.
pub fn mismatch_message(status: HymoFsStatus, kernel_version: Option<i32>) -> (r: Option<String>)
    ensures
        opt_view(r) == mismatch_message_spec(status, kernel_version),
{
    let kv = match kernel_version {
        Some(v) => v,
        None => 0,
    };
    match status {
        HymoFsStatus::KernelTooOld => Some(
            protocol_text("kernel protocol ", kv, " is older than userspace api"),
        ),
        HymoFsStatus::ModuleTooOld => Some(
            protocol_text("kernel protocol ", kv, " is newer than userspace api"),
        ),
        HymoFsStatus::Available => match kernel_version {
            Some(v) => {
                if v != HYMO_PROTOCOL_VERSION {
                    let mut out = String::from_str("protocol mismatch: userspace api");
                    push_i64(&mut out, HYMO_PROTOCOL_VERSION as i64);
                    out.append(", kernel api");
                    push_i64(&mut out, v as i64);
                    Some(out)
                } else {
                    None
                }
            },
            None => None,
        },
        HymoFsStatus::NotPresent => None,
    }
}

} // verus!
