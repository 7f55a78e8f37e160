//! The natural-language breakpoint resolver: the structured breakpoint
//! request, the offline pattern parsers that recognize line, address and
//! function descriptions, the response cache, and the decoding of a remote
//! model's answer. The remote call itself and the configuration file are
//! outside work; everything that decides lives here.

use vstd::prelude::*;
use vstd::string::StringExecFns;

use crate::dwarf::DebugInfo;
use crate::numbers::{
    all_digits, dec_chars, dec_str, digit_run_end, is_digit10, lemma_digit_run,
    parse_usize_digits, radix_val, scan_digits,
};
use crate::json::{json_as_str, json_as_u64, json_at, json_get, json_model, json_of, json_parse, Json};
use crate::strutil::{
    chars_vec, find_char, find_pat, first_char_from, first_match_from, last_char_below,
    leading_spaces, lemma_first_char_props, lemma_first_match_props, lemma_last_char_props,
    lower_of, lowercase, rfind_char, skip_spaces, str_eq_string, string_from_chars, sub_chars,
    trim_chars, trimmed,
};

verus! {

/// A structured breakpoint request: by source line (with an optional file),
/// by function name, or by code address.
#[derive(Debug)]
pub enum BreakpointSpec {
    Line { file: Option<String>, line: usize },
    Function { name: String },
    Address { addr: usize },
}

/// A breakpoint request at the specification level.
pub enum BpSpec {
    Line { file: Option<Seq<char>>, line: usize },
    Function { name: Seq<char> },
    Address { addr: usize },
}

/// The character-sequence content of a breakpoint request.
pub open spec fn bp_view(b: BreakpointSpec) -> BpSpec {
    match b {
        BreakpointSpec::Line { file, line } => BpSpec::Line {
            file: match file {
                Some(f) => Some(f@),
                None => None,
            },
            line,
        },
        BreakpointSpec::Function { name } => BpSpec::Function { name: name@ },
        BreakpointSpec::Address { addr } => BpSpec::Address { addr },
    }
}

impl BreakpointSpec {
    /// A copy with the same content.
    pub fn duplicate(&self) -> (r: BreakpointSpec)
        ensures
            bp_view(r) == bp_view(*self),
    {
        match self {
            BreakpointSpec::Line { file, line } => BreakpointSpec::Line {
                file: match file {
                    Some(f) => Some(f.clone()),
                    None => None,
                },
                line: *line,
            },
            BreakpointSpec::Function { name } => BreakpointSpec::Function { name: name.clone() },
            BreakpointSpec::Address { addr } => BreakpointSpec::Address { addr: *addr },
        }
    }
}

/// What `usize::from_str_radix` makes of a character sequence: an optional
/// plus sign, then a non-empty digit run whose value fits the machine word.
/// A minus sign counts as a sign only for signed types, so here it is no
/// digit and the parse fails.
pub open spec fn spec_radix_parse(s: Seq<char>, radix: nat) -> Option<usize> {
    if s.len() == 0 {
        None
    } else {
        let digits = if s[0] == '+' {
            s.drop_first()
        } else {
            s
        };
        if digits.len() == 0 || !all_digits(digits, radix) {
            None
        } else if radix_val(digits, radix) <= usize::MAX {
            Some(radix_val(digits, radix) as usize)
        } else {
            None
        }
    }
}

fn radix_parse_chars(v: &Vec<char>, radix: usize) -> (r: Option<usize>)
    requires
        radix == 10 || radix == 16,
    ensures
        r == spec_radix_parse(v@, radix as nat),
{
    let n = v.len();
    if n == 0 {
        return None;
    }
    let start: usize = if v[0] == '+' {
        1
    } else {
        0
    };
    proof {
        if start == 1 {
            assert(v@.drop_first() =~= v@.subrange(1, n as int));
        } else {
            assert(v@ =~= v@.subrange(0, n as int));
        }
    }
    parse_usize_digits(v, start, n, radix)
}

/// What the `break` command makes of a literal address argument: an optional
/// case-insensitive `0x` prefix, then a hexadecimal number.
pub open spec fn spec_parse_address(s: Seq<char>) -> Option<usize> {
    let body = if s.len() >= 2 && s[0] == '0' && (s[1] == 'x' || s[1] == 'X') {
        s.subrange(2, s.len() as int)
    } else {
        s
    };
    spec_radix_parse(body, 16)
}

/// Read a code address argument, with or without its `0x` prefix.
pub fn parse_address(addr: &str) -> (r: Option<usize>)
    ensures
        r == spec_parse_address(addr@),
{
    let v = chars_vec(addr);
    let body: Vec<char> = if v.len() >= 2 && v[0] == '0' && (v[1] == 'x' || v[1] == 'X') {
        sub_chars(&v, 2, v.len())
    } else {
        sub_chars(&v, 0, v.len())
    };
    proof {
        if !(v@.len() >= 2 && v@[0] == '0' && (v@[1] == 'x' || v@[1] == 'X')) {
            assert(v@.subrange(0, v@.len() as int) =~= v@);
        }
    }
    radix_parse_chars(&body, 16)
}

/// Where a `break` argument points: a `*`-prefixed literal code address, a
/// bare decimal source line looked up in the line table, or a function name
/// looked up among the known symbols.
pub open spec fn spec_break_target(
    s: Seq<char>,
    lines: Seq<crate::dwarf::LineRow>,
    funcs: Seq<crate::dwarf::FunctionSym>,
) -> Option<usize> {
    if s.len() > 0 && s[0] == '*' {
        spec_parse_address(s.drop_first())
    } else if spec_radix_parse(s, 10) is Some {
        match crate::dwarf::first_line_with(lines, spec_radix_parse(s, 10)->0, 0) {
            Some(i) => Some(lines[i].addr),
            None => None,
        }
    } else {
        match crate::dwarf::first_func_named(funcs, s, 0) {
            Some(i) => Some(funcs[i].addr),
            None => None,
        }
    }
}

/// Resolve a `break` argument to the code address to plant at.
pub fn break_target(args: &str, debug_data: &DebugInfo) -> (r: Option<usize>)
    ensures
        r == spec_break_target(args@, debug_data.lines@, debug_data.functions@),
{
    let n = args.unicode_len();
    let v = chars_vec(args);
    if n > 0 && v[0] == '*' {
        let rest = args.substring_char(1, n);
        proof {
            assert(rest@ =~= args@.subrange(1, n as int));
            assert(args@.drop_first() =~= args@.subrange(1, n as int));
        }
        parse_address(rest)
    } else {
        match radix_parse_chars(&v, 10) {
            Some(line) => debug_data.addr_for_line(line),
            None => debug_data.addr_for_function(args),
        }
    }
}

/// Where a resolved natural-language request points: a line through the line
/// table, a function through the known symbols, or its address directly.
pub open spec fn spec_nl_target(
    b: BpSpec,
    lines: Seq<crate::dwarf::LineRow>,
    funcs: Seq<crate::dwarf::FunctionSym>,
) -> Option<usize> {
    match b {
        BpSpec::Line { file: _, line } => match crate::dwarf::first_line_with(lines, line, 0) {
            Some(i) => Some(lines[i].addr),
            None => None,
        },
        BpSpec::Function { name } => match crate::dwarf::first_func_named(funcs, name, 0) {
            Some(i) => Some(funcs[i].addr),
            None => None,
        },
        BpSpec::Address { addr } => Some(addr),
    }
}

/// Resolve a structured breakpoint request to the code address to plant at.
pub fn nl_target(request: &BreakpointSpec, debug_data: &DebugInfo) -> (r: Option<usize>)
    ensures
        r == spec_nl_target(bp_view(*request), debug_data.lines@, debug_data.functions@),
{
    match request {
        BreakpointSpec::Line { file: _, line } => debug_data.addr_for_line(*line),
        BreakpointSpec::Function { name } => debug_data.addr_for_function(name.as_str()),
        BreakpointSpec::Address { addr } => Some(*addr),
    }
}

/// What the Chinese line pattern makes of a text: the first line-ordinal
/// marker, optional white space, a non-empty decimal run, and after optional
/// white space either the end, the line-measure character, or anything that
/// is not another digit.
pub open spec fn spec_chinese_line(s: Seq<char>) -> Option<usize> {
    match first_char_from(s, '\u{7b2c}', 0) {
        None => None,
        Some(i) => {
            let p = i + 1 + leading_spaces(s.subrange(i + 1, s.len() as int));
            let e = digit_run_end(s, p, 10);
            if e == p {
                None
            } else {
                let q = e + leading_spaces(s.subrange(e, s.len() as int));
                if q == s.len() || s[q] == '\u{884c}' || !is_digit10(s[q]) {
                    if radix_val(s.subrange(p, e), 10) <= usize::MAX {
                        Some(radix_val(s.subrange(p, e), 10) as usize)
                    } else {
                        None
                    }
                } else {
                    None
                }
            }
        },
    }
}

/// Recognize a line request written with the Chinese ordinal pattern.
pub fn parse_chinese_line(text: &str) -> (r: Option<BreakpointSpec>)
    ensures
        match spec_chinese_line(text@) {
            Some(n) => r matches Some(BreakpointSpec::Line { file, line }) && file is None && line
                == n,
            None => r is None,
        },
{
    let v = chars_vec(text);
    match find_char(&v, '\u{7b2c}') {
        None => None,
        Some(i) => {
            proof {
                lemma_first_char_props(v@, '\u{7b2c}', 0);
            }
            let p = skip_spaces(&v, i + 1);
            let e = scan_digits(&v, p, 10);
            if e == p {
                return None;
            }
            let q = skip_spaces(&v, e);
            let ok = if q == v.len() {
                true
            } else {
                v[q] == '\u{884c}' || !('0' <= v[q] && v[q] <= '9')
            };
            if !ok {
                return None;
            }
            proof {
                lemma_digit_run(v@, p as int, 10);
            }
            match parse_usize_digits(&v, p, e, 10) {
                Some(n) => Some(BreakpointSpec::Line { file: None, line: n }),
                None => None,
            }
        },
    }
}

/// What the English line pattern makes of a text: the first occurrence of
/// the word `line`, optional white space, then a non-empty decimal run.
pub open spec fn spec_english_line(s: Seq<char>) -> Option<usize> {
    match first_match_from(s, "line"@, 0) {
        None => None,
        Some(i) => {
            let p = i + 4 + leading_spaces(s.subrange(i + 4, s.len() as int));
            let e = digit_run_end(s, p, 10);
            if e == p {
                None
            } else if radix_val(s.subrange(p, e), 10) <= usize::MAX {
                Some(radix_val(s.subrange(p, e), 10) as usize)
            } else {
                None
            }
        },
    }
}

/// Recognize a line request written as `line N`.
pub fn parse_english_line(text: &str) -> (r: Option<BreakpointSpec>)
    ensures
        match spec_english_line(text@) {
            Some(n) => r matches Some(BreakpointSpec::Line { file, line }) && file is None && line
                == n,
            None => r is None,
        },
{
    let v = chars_vec(text);
    let pat = chars_vec("line");
    proof {
        reveal_strlit("line");
        assert(pat@ == "line"@);
    }
    let nv = v.len();
    match find_pat(&v, &pat) {
        None => None,
        Some(i) => {
            proof {
                lemma_first_match_props(v@, "line"@, 0);
                assert(i + 4 <= nv);
            }
            let p = skip_spaces(&v, i + 4);
            let e = scan_digits(&v, p, 10);
            if e == p {
                return None;
            }
            proof {
                lemma_digit_run(v@, p as int, 10);
            }
            match parse_usize_digits(&v, p, e, 10) {
                Some(n) => Some(BreakpointSpec::Line { file: None, line: n }),
                None => None,
            }
        },
    }
}

/// What the address pattern makes of a text: the first `0x`, then a
/// non-empty hexadecimal run whose value fits the machine word.
pub open spec fn spec_address_pattern(s: Seq<char>) -> Option<usize> {
    match first_match_from(s, "0x"@, 0) {
        None => None,
        Some(i) => {
            let p = i + 2;
            let e = digit_run_end(s, p, 16);
            if e == p {
                None
            } else if radix_val(s.subrange(p, e), 16) <= usize::MAX {
                Some(radix_val(s.subrange(p, e), 16) as usize)
            } else {
                None
            }
        },
    }
}

/// Recognize an address request written as a `0x`-prefixed hexadecimal run.
pub fn parse_address_pattern(text: &str) -> (r: Option<BreakpointSpec>)
    ensures
        match spec_address_pattern(text@) {
            Some(a) => r matches Some(BreakpointSpec::Address { addr }) && addr == a,
            None => r is None,
        },
{
    let v = chars_vec(text);
    let pat = chars_vec("0x");
    proof {
        reveal_strlit("0x");
        assert(pat@ == "0x"@);
    }
    let nv = v.len();
    match find_pat(&v, &pat) {
        None => None,
        Some(i) => {
            proof {
                lemma_first_match_props(v@, "0x"@, 0);
                assert(i + 2 <= nv);
            }
            let p = i + 2;
            let e = scan_digits(&v, p, 16);
            if e == p {
                return None;
            }
            proof {
                lemma_digit_run(v@, p as int, 16);
            }
            match parse_usize_digits(&v, p, e, 16) {
                Some(a) => Some(BreakpointSpec::Address { addr: a }),
                None => None,
            }
        },
    }
}

/// The pattern occurs somewhere in `s`; an empty pattern always occurs, as
/// with `str::contains`.
pub open spec fn contains_sub(s: Seq<char>, pat: Seq<char>) -> bool {
    pat.len() == 0 || first_match_from(s, pat, 0) is Some
}

/// Index of the first function at or after `from` whose lowercased name
/// occurs in the lowercased text.
pub open spec fn first_func_contained(
    fs: Seq<crate::dwarf::FunctionSym>,
    lower: Seq<char>,
    from: int,
) -> Option<int>
    decreases fs.len() - from,
{
    if from < 0 || from >= fs.len() {
        None
    } else if contains_sub(lower, lower_of(fs[from].name@)) {
        Some(from)
    } else {
        first_func_contained(fs, lower, from + 1)
    }
}

/// What the offline parse makes of a lowercased text: the Chinese line
/// pattern, then `line N`, then a hexadecimal address, then the first known
/// function whose lowercased name occurs in the text.
pub open spec fn spec_try_simple(
    lower: Seq<char>,
    fs: Seq<crate::dwarf::FunctionSym>,
) -> Option<BpSpec> {
    if spec_chinese_line(lower) is Some {
        Some(BpSpec::Line { file: None, line: spec_chinese_line(lower)->0 })
    } else if spec_english_line(lower) is Some {
        Some(BpSpec::Line { file: None, line: spec_english_line(lower)->0 })
    } else if spec_address_pattern(lower) is Some {
        Some(BpSpec::Address { addr: spec_address_pattern(lower)->0 })
    } else {
        match first_func_contained(fs, lower, 0) {
            Some(i) => Some(BpSpec::Function { name: fs[i].name@ }),
            None => None,
        }
    }
}

/// Recognize a breakpoint request offline, without the remote model: the
/// text is lowercased once, then matched against the line, address and
/// function patterns in turn.
pub fn try_simple_parse(text: &str, debug_data: &DebugInfo) -> (r: Option<BreakpointSpec>)
    ensures
        match spec_try_simple(lower_of(text@), debug_data.functions@) {
            Some(b) => r is Some && bp_view(r->0) == b,
            None => r is None,
        },
{
    let lower = lowercase(text);
    if let Some(spec) = parse_chinese_line(lower.as_str()) {
        return Some(spec);
    }
    if let Some(spec) = parse_english_line(lower.as_str()) {
        return Some(spec);
    }
    if let Some(spec) = parse_address_pattern(lower.as_str()) {
        return Some(spec);
    }
    let lv = chars_vec(lower.as_str());
    let n = debug_data.functions.len();
    proof {
        assert(spec_chinese_line(lower_of(text@)) is None);
        assert(spec_english_line(lower_of(text@)) is None);
        assert(spec_address_pattern(lower_of(text@)) is None);
    }
    let mut i: usize = 0;
    while i < n
        invariant
            i <= n,
            n == debug_data.functions@.len(),
            lv@ == lower_of(text@),
            spec_chinese_line(lower_of(text@)) is None,
            spec_english_line(lower_of(text@)) is None,
            spec_address_pattern(lower_of(text@)) is None,
            first_func_contained(debug_data.functions@, lv@, 0) == first_func_contained(
                debug_data.functions@,
                lv@,
                i as int,
            ),
        decreases n - i,
    {
        let lname = lowercase(debug_data.functions[i].name.as_str());
        let pat = chars_vec(lname.as_str());
        let hit = if pat.len() == 0 {
            true
        } else {
            find_pat(&lv, &pat).is_some()
        };
        if hit {
            proof {
                assert(contains_sub(lv@, lower_of(
                    debug_data.functions@[i as int].name@,
                )));
                assert(first_func_contained(debug_data.functions@, lv@, 0) == Some(i as int));
            }
            return Some(
                BreakpointSpec::Function { name: debug_data.functions[i].name.clone() },
            );
        }
        i += 1;
    }
    None
}

/// The process-wide resolver cache: earlier answers, keyed by the exact
/// request text.
pub struct Cache {
    entries: Vec<(String, BreakpointSpec)>,
}

/// The view of one cache entry.
pub open spec fn entry_view(p: (String, BreakpointSpec)) -> (Seq<char>, BpSpec) {
    (p.0@, bp_view(p.1))
}

/// The sequence holds an entry under this key.
pub open spec fn seq_has_entry_key(s: Seq<(Seq<char>, BpSpec)>, k: Seq<char>) -> bool {
    exists|i: int| 0 <= i < s.len() && s[i].0 == k
}

impl View for Cache {
    type V = Seq<(Seq<char>, BpSpec)>;

    closed spec fn view(&self) -> Seq<(Seq<char>, BpSpec)> {
        Seq::new(self.entries@.len(), |i: int| entry_view(self.entries@[i]))
    }
}

impl Cache {
    /// Each key appears at most once.
    pub open spec fn wf(&self) -> bool {
        forall|i: int, j: int| 0 <= i < j < self@.len() ==> self@[i].0 != self@[j].0
    }

    /// The cache holds an answer under this key.
    pub open spec fn has_key(&self, k: Seq<char>) -> bool {
        seq_has_entry_key(self@, k)
    }

    /// The answer recorded under `k`.
    pub open spec fn value_at(&self, k: Seq<char>) -> BpSpec
        recommends
            self.has_key(k),
    {
        self@[choose|i: int| 0 <= i < self@.len() && self@[i].0 == k].1
    }

    pub fn new() -> (r: Cache)
        ensures
            r.wf(),
            r@.len() == 0,
    {
        Cache { entries: Vec::new() }
    }

    fn index_of(&self, key: &str) -> (r: Option<usize>)
        ensures
            match r {
                Some(i) => i < self@.len() && self@[i as int].0 == key@,
                None => !self.has_key(key@),
            },
    {
        let n = self.entries.len();
        let mut i: usize = 0;
        while i < n
            invariant
                i <= n,
                n == self@.len(),
                n == self.entries@.len(),
                forall|j: int| 0 <= j < i ==> self@[j].0 != key@,
            decreases n - i,
        {
            if str_eq_string(key, &self.entries[i].0) {
                return Some(i);
            }
            i += 1;
        }
        None
    }

    /// The answer cached for this request text, if any.
    pub fn get(&self, key: &str) -> (r: Option<BreakpointSpec>)
        requires
            self.wf(),
        ensures
            match r {
                Some(b) => self.has_key(key@) && bp_view(b) == self.value_at(key@),
                None => !self.has_key(key@),
            },
    {
        match self.index_of(key) {
            Some(i) => {
                proof {
                    lemma_cache_entry_unique(self@, key@, i as int);
                }
                Some(self.entries[i].1.duplicate())
            },
            None => None,
        }
    }

    /// Record an answer for this request text, replacing any earlier one.
    pub fn insert(&mut self, key: String, value: BreakpointSpec)
        requires
            old(self).wf(),
        ensures
            final(self).wf(),
            final(self).has_key(key@),
            final(self).value_at(key@) == bp_view(value),
            forall|k: Seq<char>|
                k != key@ ==> #[trigger] final(self).has_key(k) == old(self).has_key(k),
            forall|k: Seq<char>|
                k != key@ && old(self).has_key(k) ==> #[trigger] final(self).value_at(k) == old(
                    self,
                ).value_at(k),
    {
        let ghost pre = self@;
        let ghost kv = key@;
        let ghost vv = bp_view(value);
        match self.index_of(key.as_str()) {
            Some(i) => {
                proof {
                    assert(pre[i as int].0 == kv);
                }
                self.entries[i] = (key, value);
                proof {
                    assert(self@.len() == pre.len());
                    assert(self@[i as int] == (kv, vv));
                    assert(forall|j: int|
                        0 <= j < pre.len() && j != i ==> self@[j] == pre[j]);
                    assert forall|p: int, q: int|
                        0 <= p < q < self@.len() implies self@[p].0 != self@[q].0 by {
                        assert(self@[p].0 == pre[p].0);
                        assert(self@[q].0 == pre[q].0);
                    }
                    lemma_cache_entry_unique(self@, kv, i as int);
                    assert forall|k: Seq<char>|
                        k != kv implies #[trigger] seq_has_entry_key(self@, k)
                        == seq_has_entry_key(pre, k) by {
                        lemma_cache_update_other(pre, self@, i as int, k);
                    }
                    assert forall|k: Seq<char>|
                        k != kv && seq_has_entry_key(pre, k) implies #[trigger] self.value_at(k)
                        == pre[choose|m: int| 0 <= m < pre.len() && pre[m].0 == k].1 by {
                        lemma_cache_update_other(pre, self@, i as int, k);
                    }
                }
            },
            None => {
                proof {
                    assert(forall|j: int| 0 <= j < pre.len() ==> pre[j].0 != kv);
                }
                self.entries.push((key, value));
                proof {
                    assert(self@.len() == pre.len() + 1);
                    assert(self@[pre.len() as int] == (kv, vv));
                    assert(forall|j: int| 0 <= j < pre.len() ==> self@[j] == pre[j]);
                    assert forall|p: int, q: int|
                        0 <= p < q < self@.len() implies self@[p].0 != self@[q].0 by {
                        assert(self@[p] == pre[p]);
                        if q < pre.len() {
                            assert(self@[q] == pre[q]);
                        } else {
                            assert(self@[q].0 == kv);
                        }
                    }
                    lemma_cache_entry_unique(self@, kv, pre.len() as int);
                    assert forall|k: Seq<char>|
                        k != kv implies #[trigger] seq_has_entry_key(self@, k)
                        == seq_has_entry_key(pre, k) by {
                        lemma_cache_push_other(pre, self@, k);
                    }
                    assert forall|k: Seq<char>|
                        k != kv && seq_has_entry_key(pre, k) implies #[trigger] self.value_at(k)
                        == pre[choose|m: int| 0 <= m < pre.len() && pre[m].0 == k].1 by {
                        lemma_cache_push_other(pre, self@, k);
                    }
                }
            },
        }
    }
}

proof fn lemma_cache_entry_unique(s: Seq<(Seq<char>, BpSpec)>, k: Seq<char>, i: int)
    requires
        forall|p: int, q: int| 0 <= p < q < s.len() ==> s[p].0 != s[q].0,
        0 <= i < s.len(),
        s[i].0 == k,
    ensures
        seq_has_entry_key(s, k),
        s[choose|m: int| 0 <= m < s.len() && s[m].0 == k] == s[i],
{
    let m = choose|m: int| 0 <= m < s.len() && s[m].0 == k;
    if m != i {
        if m < i {
            assert(s[m].0 != s[i].0);
        } else {
            assert(s[i].0 != s[m].0);
        }
    }
}

proof fn lemma_cache_update_other(
    pre: Seq<(Seq<char>, BpSpec)>,
    post: Seq<(Seq<char>, BpSpec)>,
    i: int,
    k: Seq<char>,
)
    requires
        0 <= i < pre.len(),
        post.len() == pre.len(),
        forall|j: int| 0 <= j < pre.len() && j != i ==> post[j] == pre[j],
        forall|p: int, q: int| 0 <= p < q < pre.len() ==> pre[p].0 != pre[q].0,
        k != post[i].0,
        k != pre[i].0,
    ensures
        seq_has_entry_key(post, k) == seq_has_entry_key(pre, k),
        seq_has_entry_key(pre, k) ==> post[choose|m: int|
            0 <= m < post.len() && post[m].0 == k] == pre[choose|m: int|
            0 <= m < pre.len() && pre[m].0 == k],
{
    if seq_has_entry_key(pre, k) {
        let m = choose|m: int| 0 <= m < pre.len() && pre[m].0 == k;
        assert(m != i);
        assert(post[m].0 == k);
        assert(seq_has_entry_key(post, k));
        let m2 = choose|m2: int| 0 <= m2 < post.len() && post[m2].0 == k;
        assert(m2 != i);
        assert(pre[m2].0 == k);
        if m != m2 {
            if m < m2 {
                assert(pre[m].0 != pre[m2].0);
            } else {
                assert(pre[m2].0 != pre[m].0);
            }
        }
    }
    if seq_has_entry_key(post, k) {
        let m = choose|m: int| 0 <= m < post.len() && post[m].0 == k;
        assert(m != i);
        assert(pre[m].0 == k);
        assert(seq_has_entry_key(pre, k));
    }
}

proof fn lemma_cache_push_other(
    pre: Seq<(Seq<char>, BpSpec)>,
    post: Seq<(Seq<char>, BpSpec)>,
    k: Seq<char>,
)
    requires
        post.len() == pre.len() + 1,
        forall|j: int| 0 <= j < pre.len() ==> post[j] == pre[j],
        k != post[pre.len() as int].0,
        forall|p: int, q: int| 0 <= p < q < pre.len() ==> pre[p].0 != pre[q].0,
    ensures
        seq_has_entry_key(post, k) == seq_has_entry_key(pre, k),
        seq_has_entry_key(pre, k) ==> post[choose|m: int|
            0 <= m < post.len() && post[m].0 == k] == pre[choose|m: int|
            0 <= m < pre.len() && pre[m].0 == k],
{
    if seq_has_entry_key(pre, k) {
        let m = choose|m: int| 0 <= m < pre.len() && pre[m].0 == k;
        assert(post[m].0 == k);
        assert(seq_has_entry_key(post, k));
        let m2 = choose|m2: int| 0 <= m2 < post.len() && post[m2].0 == k;
        assert(m2 != pre.len());
        assert(pre[m2].0 == k);
        if m != m2 {
            if m < m2 {
                assert(pre[m].0 != pre[m2].0);
            } else {
                assert(pre[m2].0 != pre[m].0);
            }
        }
    }
    if seq_has_entry_key(post, k) {
        let m = choose|m: int| 0 <= m < post.len() && post[m].0 == k;
        assert(m != pre.len());
        assert(pre[m].0 == k);
        assert(seq_has_entry_key(pre, k));
    }
}

/// Resolve a request offline: answer from the cache, else by the offline
/// parsers, caching a fresh answer. Nothing here reaches the remote model;
/// the caller falls back to it when this returns nothing.
pub fn resolve_offline(text: &str, debug_data: &DebugInfo, cache: &mut Cache) -> (r: Option<
    BreakpointSpec,
>)
    requires
        old(cache).wf(),
    ensures
        final(cache).wf(),
        old(cache).has_key(text@) ==> r is Some && bp_view(r->0) == old(cache).value_at(text@)
            && *final(cache) == *old(cache),
        !old(cache).has_key(text@) ==> match spec_try_simple(
            lower_of(text@),
            debug_data.functions@,
        ) {
            Some(b) => r is Some && bp_view(r->0) == b && final(cache).has_key(text@)
                && final(cache).value_at(text@) == b,
            None => r is None && *final(cache) == *old(cache),
        },
{
    if let Some(hit) = cache.get(text) {
        return Some(hit);
    }
    match try_simple_parse(text, debug_data) {
        Some(spec) => {
            let copy = spec.duplicate();
            cache.insert(String::from_str(text), copy);
            Some(spec)
        },
        None => None,
    }
}

/// What the extraction step makes of a model's answer: the content of the
/// first ```json fence if one is closed, else of the first plain fence if one
/// is closed, else the span from the first opening brace to the last closing
/// brace, else the trimmed answer itself.
pub open spec fn spec_extract_json(s: Seq<char>) -> Seq<char> {
    let t = trimmed(s);
    let jm = first_match_from(t, "```json"@, 0);
    if jm is Some && first_match_from(t.subrange(jm->0 + 7, t.len() as int), "```"@, 0) is Some {
        let a = t.subrange(jm->0 + 7, t.len() as int);
        trimmed(a.subrange(0, first_match_from(a, "```"@, 0)->0))
    } else {
        let bm = first_match_from(t, "```"@, 0);
        if bm is Some && first_match_from(t.subrange(bm->0 + 3, t.len() as int), "```"@, 0)
            is Some {
            let a = t.subrange(bm->0 + 3, t.len() as int);
            trimmed(a.subrange(0, first_match_from(a, "```"@, 0)->0))
        } else {
            let ob = first_char_from(t, '{', 0);
            let cb = last_char_below(t, '}', t.len() as int);
            if ob is Some && cb is Some && ob->0 <= cb->0 + 1 {
                t.subrange(ob->0, cb->0 + 1)
            } else {
                t
            }
        }
    }
}

/// Pull the JSON object out of a model's answer, tolerating a ```json fence,
/// a plain fence, or loose text around a braced object.
pub fn extract_json(content: &str) -> (r: String)
    ensures
        r@ == spec_extract_json(content@),
{
    let v0 = chars_vec(content);
    let t = trim_chars(&v0);
    let patj = chars_vec("```json");
    let patb = chars_vec("```");
    proof {
        reveal_strlit("```json");
        reveal_strlit("```");
        assert(patj@ == "```json"@);
        assert(patb@ == "```"@);
    }
    let tlen = t.len();
    if let Some(i) = find_pat(&t, &patj) {
        proof {
            lemma_first_match_props(t@, "```json"@, 0);
        }
        let a = sub_chars(&t, i + 7, tlen);
        if let Some(e) = find_pat(&a, &patb) {
            proof {
                lemma_first_match_props(a@, "```"@, 0);
            }
            let inner = sub_chars(&a, 0, e);
            let res = trim_chars(&inner);
            return string_from_chars(&res);
        }
    }
    if let Some(i) = find_pat(&t, &patb) {
        proof {
            lemma_first_match_props(t@, "```"@, 0);
        }
        let a = sub_chars(&t, i + 3, tlen);
        if let Some(e) = find_pat(&a, &patb) {
            proof {
                lemma_first_match_props(a@, "```"@, 0);
            }
            let inner = sub_chars(&a, 0, e);
            let res = trim_chars(&inner);
            return string_from_chars(&res);
        }
    }
    let ob = find_char(&t, '{');
    let cb = rfind_char(&t, '}');
    proof {
        lemma_first_char_props(t@, '{', 0);
        lemma_last_char_props(t@, '}', t@.len() as int);
    }
    if let (Some(i), Some(j)) = (ob, cb) {
        if i <= j + 1 {
            let res = sub_chars(&t, i, j + 1);
            return string_from_chars(&res);
        }
    }
    string_from_chars(&t)
}

/// The field of an object document under a key.
pub open spec fn obj_get(j: Json, k: Seq<char>) -> Option<Json> {
    match j {
        Json::Obj(m) => if m.dom().contains(k) {
            Some(m[k])
        } else {
            None
        },
        _ => None,
    }
}

/// The element of an array document at an index.
pub open spec fn arr_get(j: Json, i: int) -> Option<Json> {
    match j {
        Json::Arr(a) => if 0 <= i < a.len() {
            Some(a[i])
        } else {
            None
        },
        _ => None,
    }
}

/// Why a model's answer could not be turned into a breakpoint request.
#[derive(Clone, Copy, Debug, PartialEq, Eq, Structural)]
pub enum LlmError {
    /// The response body is not valid JSON.
    BadResponse,
    /// The response lacks a textual `choices[0].message.content`.
    BadShape,
    /// The extracted answer is not valid JSON.
    BadSpec,
    /// A line request without a usable line number.
    BadLine,
    /// A function request without a usable name.
    BadName,
    /// An address request without a usable address.
    BadAddress,
    /// An unknown request type.
    UnknownType,
}

/// `s` with every leading repetition of the two characters `0` and `second`
/// removed, as `str::trim_start_matches` leaves it.
pub open spec fn strip_prefix_reps(s: Seq<char>, second: char) -> Seq<char>
    decreases s.len(),
{
    if s.len() >= 2 && s[0] == '0' && s[1] == second {
        strip_prefix_reps(s.subrange(2, s.len() as int), second)
    } else {
        s
    }
}

/// The assistant text inside a chat-completion response document.
pub open spec fn spec_response_content(doc: Json) -> Option<Seq<char>> {
    match obj_get(doc, "choices"@) {
        Some(c) => match arr_get(c, 0) {
            Some(c0) => match obj_get(c0, "message"@) {
                Some(m) => match obj_get(m, "content"@) {
                    Some(Json::Text(t)) => Some(t),
                    _ => None,
                },
                None => None,
            },
            None => None,
        },
        None => None,
    }
}

/// The optional file name of a line request document.
pub open spec fn spec_file_field(p: Json) -> Option<Seq<char>> {
    match obj_get(p, "file"@) {
        Some(Json::Text(f)) => Some(f),
        _ => None,
    }
}

/// What a breakpoint request document means: one of the three tagged shapes,
/// with the address read as hexadecimal after shedding its `0x` prefixes.
pub open spec fn spec_decode_request(p: Json) -> Result<BpSpec, LlmError> {
    match obj_get(p, "type"@) {
        Some(Json::Text(ty)) => if ty == "line"@ {
            match obj_get(p, "line"@) {
                Some(Json::UInt(n)) => Ok(
                    BpSpec::Line { file: spec_file_field(p), line: n as usize },
                ),
                _ => Err(LlmError::BadLine),
            }
        } else if ty == "function"@ {
            match obj_get(p, "name"@) {
                Some(Json::Text(nm)) => Ok(BpSpec::Function { name: nm }),
                _ => Err(LlmError::BadName),
            }
        } else if ty == "address"@ {
            match obj_get(p, "addr"@) {
                Some(Json::Text(a)) => match spec_radix_parse(
                    strip_prefix_reps(strip_prefix_reps(a, 'x'), 'X'),
                    16,
                ) {
                    Some(v) => Ok(BpSpec::Address { addr: v }),
                    None => Err(LlmError::BadAddress),
                },
                _ => Err(LlmError::BadAddress),
            }
        } else {
            Err(LlmError::UnknownType)
        },
        _ => Err(LlmError::UnknownType),
    }
}

/// What the whole decode makes of a raw response body.
pub open spec fn spec_decode(s: Seq<char>) -> Result<BpSpec, LlmError> {
    match json_of(s) {
        None => Err(LlmError::BadResponse),
        Some(doc) => match spec_response_content(doc) {
            None => Err(LlmError::BadShape),
            Some(content) => match json_of(spec_extract_json(content)) {
                None => Err(LlmError::BadSpec),
                Some(p) => spec_decode_request(p),
            },
        },
    }
}

fn strip_hex_prefixes(av: &Vec<char>) -> (r: usize)
    ensures
        r <= av@.len(),
        av@.subrange(r as int, av@.len() as int) == strip_prefix_reps(
            strip_prefix_reps(av@, 'x'),
            'X',
        ),
{
    let n = av.len();
    proof {
        assert(av@.subrange(0, n as int) =~= av@);
    }
    let mut k: usize = 0;
    while k < n && k + 1 < n && av[k] == '0' && av[k + 1] == 'x'
        invariant
            k <= n,
            n == av@.len(),
            strip_prefix_reps(av@, 'x') == strip_prefix_reps(
                av@.subrange(k as int, n as int),
                'x',
            ),
        decreases n - k,
    {
        proof {
            let cur = av@.subrange(k as int, n as int);
            assert(cur[0] == av@[k as int]);
            assert(cur[1] == av@[k + 1]);
            assert(cur.subrange(2, cur.len() as int) =~= av@.subrange(k + 2, n as int));
        }
        k += 2;
    }
    proof {
        let cur = av@.subrange(k as int, n as int);
        assert(strip_prefix_reps(av@, 'x') == cur);
    }
    let mut j: usize = k;
    while j < n && j + 1 < n && av[j] == '0' && av[j + 1] == 'X'
        invariant
            k <= j <= n,
            n == av@.len(),
            strip_prefix_reps(av@, 'x') == av@.subrange(k as int, n as int),
            strip_prefix_reps(av@.subrange(k as int, n as int), 'X') == strip_prefix_reps(
                av@.subrange(j as int, n as int),
                'X',
            ),
        decreases n - j,
    {
        proof {
            let cur = av@.subrange(j as int, n as int);
            assert(cur[0] == av@[j as int]);
            assert(cur[1] == av@[j + 1]);
            assert(cur.subrange(2, cur.len() as int) =~= av@.subrange(j + 2, n as int));
        }
        j += 2;
    }
    proof {
        let cur = av@.subrange(j as int, n as int);
        assert(strip_prefix_reps(av@.subrange(k as int, n as int), 'X') == cur);
    }
    j
}

/// Turn a raw chat-completion response into a breakpoint request: find the
/// assistant text, pull its JSON object out, and read one of the three
/// tagged shapes.
pub fn decode_llm_response(response_text: &str) -> (r: Result<BreakpointSpec, LlmError>)
    ensures
        match spec_decode(response_text@) {
            Ok(b) => r is Ok && bp_view(r->Ok_0) == b,
            Err(e) => r == Err::<BreakpointSpec, LlmError>(e),
        },
{
    let doc = match json_parse(response_text) {
        Some(d) => d,
        None => {
            return Err(LlmError::BadResponse);
        },
    };
    let choices = match json_get(&doc, "choices") {
        Some(c) => c,
        None => {
            return Err(LlmError::BadShape);
        },
    };
    let first = match json_at(choices, 0) {
        Some(c) => c,
        None => {
            return Err(LlmError::BadShape);
        },
    };
    let message = match json_get(first, "message") {
        Some(m) => m,
        None => {
            return Err(LlmError::BadShape);
        },
    };
    let content_v = match json_get(message, "content") {
        Some(c) => c,
        None => {
            return Err(LlmError::BadShape);
        },
    };
    let content = match json_as_str(content_v) {
        Some(t) => t,
        None => {
            return Err(LlmError::BadShape);
        },
    };
    let extracted = extract_json(content.as_str());
    let parsed = match json_parse(extracted.as_str()) {
        Some(p) => p,
        None => {
            return Err(LlmError::BadSpec);
        },
    };
    let ty = match json_get(&parsed, "type") {
        Some(t) => match json_as_str(t) {
            Some(t) => t,
            None => {
                return Err(LlmError::UnknownType);
            },
        },
        None => {
            return Err(LlmError::UnknownType);
        },
    };
    if str_eq_string("line", &ty) {
        let line = match json_get(&parsed, "line") {
            Some(l) => match json_as_u64(l) {
                Some(n) => n as usize,
                None => {
                    return Err(LlmError::BadLine);
                },
            },
            None => {
                return Err(LlmError::BadLine);
            },
        };
        let file = match json_get(&parsed, "file") {
            Some(f) => json_as_str(f),
            None => None,
        };
        Ok(BreakpointSpec::Line { file, line })
    } else if str_eq_string("function", &ty) {
        match json_get(&parsed, "name") {
            Some(nv) => match json_as_str(nv) {
                Some(name) => Ok(BreakpointSpec::Function { name }),
                None => Err(LlmError::BadName),
            },
            None => Err(LlmError::BadName),
        }
    } else if str_eq_string("address", &ty) {
        let addr_s = match json_get(&parsed, "addr") {
            Some(av) => match json_as_str(av) {
                Some(a) => a,
                None => {
                    return Err(LlmError::BadAddress);
                },
            },
            None => {
                return Err(LlmError::BadAddress);
            },
        };
        let av = chars_vec(addr_s.as_str());
        let start = strip_hex_prefixes(&av);
        let digits = sub_chars(&av, start, av.len());
        match radix_parse_chars(&digits, 16) {
            Some(v) => Ok(BreakpointSpec::Address { addr: v }),
            None => Err(LlmError::BadAddress),
        }
    } else {
        Err(LlmError::UnknownType)
    }
}

/// Connection settings for the remote model.
#[derive(Debug)]
pub struct LlmConfig {
    pub api_key: String,
    pub api_base: String,
    pub model: String,
}

/// Why a configuration text yields no usable settings.
#[derive(Clone, Copy, Debug, PartialEq, Eq, Structural)]
pub enum ConfigError {
    /// The text is not valid JSON.
    Invalid,
    /// No textual `api_key` field.
    MissingKey,
    /// The key is empty or still the placeholder.
    PlaceholderKey,
}

/// The base address configured, or its default.
pub open spec fn spec_api_base(doc: Json) -> Seq<char> {
    match obj_get(doc, "api_base"@) {
        Some(Json::Text(b)) => b,
        _ => "https://api.openai.com/v1"@,
    }
}

/// The model name configured, or its default.
pub open spec fn spec_model(doc: Json) -> Seq<char> {
    match obj_get(doc, "model"@) {
        Some(Json::Text(m)) => m,
        _ => "gpt-4o-mini"@,
    }
}

/// What a configuration text means: a JSON object with a non-placeholder
/// `api_key`, and the base address and model name defaulted when absent.
pub open spec fn spec_config(s: Seq<char>) -> Result<(Seq<char>, Seq<char>, Seq<char>), ConfigError> {
    match json_of(s) {
        None => Err(ConfigError::Invalid),
        Some(doc) => match obj_get(doc, "api_key"@) {
            Some(Json::Text(k)) => if k == "your-api-key-here"@ || k.len() == 0 {
                Err(ConfigError::PlaceholderKey)
            } else {
                Ok((k, spec_api_base(doc), spec_model(doc)))
            },
            _ => Err(ConfigError::MissingKey),
        },
    }
}

/// Read the remote-model settings out of a configuration file's text.
pub fn config_from_json(content: &str) -> (r: Result<LlmConfig, ConfigError>)
    ensures
        match spec_config(content@) {
            Ok((k, b, m)) => r matches Ok(c) && c.api_key@ == k && c.api_base@ == b && c.model@
                == m,
            Err(e) => r == Err::<LlmConfig, ConfigError>(e),
        },
{
    let doc = match json_parse(content) {
        Some(d) => d,
        None => {
            return Err(ConfigError::Invalid);
        },
    };
    let api_key = match json_get(&doc, "api_key") {
        Some(kv) => match json_as_str(kv) {
            Some(k) => k,
            None => {
                return Err(ConfigError::MissingKey);
            },
        },
        None => {
            return Err(ConfigError::MissingKey);
        },
    };
    if str_eq_string("your-api-key-here", &api_key) || api_key.as_str().is_empty() {
        return Err(ConfigError::PlaceholderKey);
    }
    let api_base = match json_get(&doc, "api_base") {
        Some(bv) => match json_as_str(bv) {
            Some(b) => b,
            None => String::from_str("https://api.openai.com/v1"),
        },
        None => String::from_str("https://api.openai.com/v1"),
    };
    let model = match json_get(&doc, "model") {
        Some(mv) => match json_as_str(mv) {
            Some(m) => m,
            None => String::from_str("gpt-4o-mini"),
        },
        None => String::from_str("gpt-4o-mini"),
    };
    Ok(LlmConfig { api_key, api_base, model })
}

/// One context line for each known function, in order.
pub open spec fn ctx_funcs(fs: Seq<crate::dwarf::FunctionSym>) -> Seq<char>
    decreases fs.len(),
{
    if fs.len() == 0 {
        Seq::empty()
    } else {
        ctx_funcs(fs.drop_last()) + "- `"@ + fs.last().name@ + "` ("@ + fs.last().file@ + ":"@
            + dec_str(fs.last().line_number as nat) + ")\n"@
    }
}

/// One context line for each source file, in order.
pub open spec fn ctx_files(files: Seq<String>) -> Seq<char>
    decreases files.len(),
{
    if files.len() == 0 {
        Seq::empty()
    } else {
        ctx_files(files.drop_last()) + "- "@ + files.last()@ + "\n"@
    }
}

/// The whole debugging context handed to the remote model: the known
/// functions with their files and lines, the source files, and the three
/// request shapes.
pub open spec fn spec_debug_context(fs: Seq<crate::dwarf::FunctionSym>, files: Seq<String>) -> Seq<
    char,
> {
    "\u{5f53}\u{524d}\u{8c03}\u{8bd5}\u{7a0b}\u{5e8f}\u{7684}\u{4fe1}\u{606f}\u{ff1a}\n\n"@
        + "## \u{53ef}\u{7528}\u{51fd}\u{6570}:\n"@ + ctx_funcs(fs)
        + "\n## \u{6e90}\u{6587}\u{4ef6}:\n"@ + ctx_files(files)
        + "\n\u{53ef}\u{7528}\u{7684}\u{65ad}\u{70b9}\u{7c7b}\u{578b}\u{ff1a}\n1. \u{51fd}\u{6570}\u{540d}\u{65ad}\u{70b9}\u{ff1a}\u{6307}\u{5b9a}\u{51fd}\u{6570}\u{540d}\n2. \u{884c}\u{53f7}\u{65ad}\u{70b9}\u{ff1a}\u{6307}\u{5b9a}\u{884c}\u{53f7}\u{ff08}\u{53ef}\u{9009}\u{6587}\u{4ef6}\u{540d}\u{ff09}\n3. \u{5730}\u{5740}\u{65ad}\u{70b9}\u{ff1a}\u{6307}\u{5b9a}\u{5341}\u{516d}\u{8fdb}\u{5236}\u{5730}\u{5740}"@
}

/// Collect the debugging context for the remote model from the loaded debug
/// information.
pub fn build_debug_context(debug_data: &DebugInfo) -> (r: String)
    ensures
        r@ == spec_debug_context(debug_data.functions@, debug_data.files@),
{
    let mut s = String::from_str(
        "\u{5f53}\u{524d}\u{8c03}\u{8bd5}\u{7a0b}\u{5e8f}\u{7684}\u{4fe1}\u{606f}\u{ff1a}\n\n",
    );
    s.append("## \u{53ef}\u{7528}\u{51fd}\u{6570}:\n");
    let ghost head = s@;
    let nf = debug_data.functions.len();
    let mut i: usize = 0;
    while i < nf
        invariant
            i <= nf,
            nf == debug_data.functions@.len(),
            s@ == head + ctx_funcs(debug_data.functions@.subrange(0, i as int)),
        decreases nf - i,
    {
        let f = &debug_data.functions[i];
        s.append("- `");
        s.append(f.name.as_str());
        s.append("` (");
        s.append(f.file.as_str());
        s.append(":");
        let num = string_from_chars(&dec_chars(f.line_number));
        s.append(num.as_str());
        s.append(")\n");
        i += 1;
        proof {
            let pre = debug_data.functions@.subrange(0, i as int);
            assert(pre.drop_last() =~= debug_data.functions@.subrange(0, i - 1));
            assert(pre.last() == debug_data.functions@[i - 1]);
        }
    }
    proof {
        assert(debug_data.functions@.subrange(0, nf as int) =~= debug_data.functions@);
    }
    s.append("\n## \u{6e90}\u{6587}\u{4ef6}:\n");
    let ghost head2 = s@;
    let nfl = debug_data.files.len();
    let mut j: usize = 0;
    while j < nfl
        invariant
            j <= nfl,
            nfl == debug_data.files@.len(),
            s@ == head2 + ctx_files(debug_data.files@.subrange(0, j as int)),
        decreases nfl - j,
    {
        s.append("- ");
        s.append(debug_data.files[j].as_str());
        s.append("\n");
        j += 1;
        proof {
            let pre = debug_data.files@.subrange(0, j as int);
            assert(pre.drop_last() =~= debug_data.files@.subrange(0, j - 1));
            assert(pre.last() == debug_data.files@[j - 1]);
        }
    }
    proof {
        assert(debug_data.files@.subrange(0, nfl as int) =~= debug_data.files@);
    }
    s.append(
        "\n\u{53ef}\u{7528}\u{7684}\u{65ad}\u{70b9}\u{7c7b}\u{578b}\u{ff1a}\n1. \u{51fd}\u{6570}\u{540d}\u{65ad}\u{70b9}\u{ff1a}\u{6307}\u{5b9a}\u{51fd}\u{6570}\u{540d}\n2. \u{884c}\u{53f7}\u{65ad}\u{70b9}\u{ff1a}\u{6307}\u{5b9a}\u{884c}\u{53f7}\u{ff08}\u{53ef}\u{9009}\u{6587}\u{4ef6}\u{540d}\u{ff09}\n3. \u{5730}\u{5740}\u{65ad}\u{70b9}\u{ff1a}\u{6307}\u{5b9a}\u{5341}\u{516d}\u{8fdb}\u{5236}\u{5730}\u{5740}",
    );
    s
}

} // verus!
