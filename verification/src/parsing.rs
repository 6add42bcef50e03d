//! Reading entry points out of source text: clap subcommands and axum
//! routes, line by line.
use vstd::prelude::*;

use crate::text::{
    after_last, append_chars, chars_after_last, join, join_chars, lemma_split_bounds, split_scan, chars_eq, chars_find, chars_has, chars_of,
    chars_slice, chars_starts_with, contains, find_first, first_index, has_char, is_upper,
    lemma_first_index, lower_char, occurs_at, segments, split, split_pieces, split_segments,
    starts_with, string_from_chars, trim, trim_chars, views, ascii_lower,
};

verus! {

// ---------------------------------------------------------------------------
// Lines, searches and pieces
// ---------------------------------------------------------------------------

pub open spec fn strip_cr(p: Seq<char>) -> Seq<char> {
    if p.len() > 0 && p.last() == '\r' {
        p.drop_last()
    } else {
        p
    }
}

/// `str::lines`: the pieces between `\n`s, each without a `\r` before its
/// `\n`, and no empty piece after a final `\n`.
pub open spec fn lines_of(s: Seq<char>) -> Seq<Seq<char>> {
    let parts = split(s, '\n');
    let n = parts.len() as int;
    parts.take(n - 1).map_values(|p: Seq<char>| strip_cr(p)) + if parts[n - 1].len() == 0 {
        Seq::<Seq<char>>::empty()
    } else {
        seq![parts[n - 1]]
    }
}

pub fn text_lines(s: &[char]) -> (r: Vec<Vec<char>>)
    ensures
        views(r@) == lines_of(s@),
{
    let parts = split_pieces(s, '\n');
    let ghost pv = views(parts@);
    assert(pv.len() >= 1);
    let n = parts.len();
    let mut out: Vec<Vec<char>> = Vec::new();
    let mut i: usize = 0;
    while i + 1 < n
        invariant
            n == parts@.len(),
            pv == views(parts@),
            pv == split(s@, '\n'),
            n >= 1,
            i < n,
            views(out@) == pv.take(i as int).map_values(|p: Seq<char>| strip_cr(p)),
        decreases n - i,
    {
        let p = &parts[i];
        let q = if p.len() > 0 && p[p.len() - 1] == '\r' {
            chars_slice(p.as_slice(), 0, p.len() - 1)
        } else {
            chars_slice(p.as_slice(), 0, p.len())
        };
        assert(q@ =~= strip_cr(p@));
        let ghost before = views(out@);
        out.push(q);
        assert(views(out@) =~= before.push(strip_cr(pv[i as int])));
        assert(pv.take(i + 1).map_values(|p: Seq<char>| strip_cr(p)) =~= pv.take(i as int).map_values(
            |p: Seq<char>| strip_cr(p),
        ).push(strip_cr(pv[i as int])));
        i = i + 1;
    }
    let ghost head = views(out@);
    if parts[n - 1].len() > 0 {
        out.push(parts[n - 1].clone());
        assert(views(out@) =~= head + seq![pv[n - 1]]);
    } else {
        assert(views(out@) =~= head + Seq::<Seq<char>>::empty());
    }
    out
}

/// Where `p` first occurs in `s`, or -1.
pub open spec fn first_occ(s: Seq<char>, p: Seq<char>) -> int {
    if contains(s, p) {
        choose|i: int| occurs_at(s, p, i) && forall|j: int| 0 <= j < i ==> !occurs_at(s, p, j)
    } else {
        -1
    }
}

proof fn lemma_first_occ(s: Seq<char>, p: Seq<char>, i: int)
    requires
        occurs_at(s, p, i),
        forall|j: int| 0 <= j < i ==> !occurs_at(s, p, j),
    ensures
        first_occ(s, p) == i,
{
    assert(contains(s, p));
    let k = choose|k: int| occurs_at(s, p, k) && forall|j: int| 0 <= j < k ==> !occurs_at(s, p, j);
    if k < i {
        assert(0 <= k);
    }
    if i < k {
        assert(0 <= i);
    }
}

pub fn find_str(s: &[char], p: &[char]) -> (r: Option<usize>)
    ensures
        match r {
            Some(i) => i as int == first_occ(s@, p@) && occurs_at(s@, p@, i as int),
            None => first_occ(s@, p@) == -1 && !contains(s@, p@),
        },
{
    match chars_find(s, p) {
        Some(i) => {
            proof {
                lemma_first_occ(s@, p@, i as int);
            }
            Some(i)
        },
        None => None,
    }
}

/// The prefix of `s` before its first character among `stops`.
pub open spec fn take_until(s: Seq<char>, stops: Seq<char>) -> Seq<char>
    decreases s.len(),
{
    if s.len() == 0 || stops.contains(s[0]) {
        Seq::empty()
    } else {
        seq![s[0]] + take_until(s.drop_first(), stops)
    }
}

fn chars_take_until(s: &[char], stops: &[char]) -> (r: Vec<char>)
    ensures
        r@ == take_until(s@, stops@),
{
    let mut i: usize = 0;
    assert(s@.skip(0) =~= s@);
    while i < s.len()
        invariant
            i <= s@.len(),
            take_until(s@, stops@) == s@.take(i as int) + take_until(s@.skip(i as int), stops@),
        decreases s@.len() - i,
    {
        let mut hit = false;
        let mut k: usize = 0;
        while k < stops.len()
            invariant
                k <= stops@.len(),
                i < s@.len(),
                hit == exists|j: int| 0 <= j < k && stops@[j] == s@[i as int],
            decreases stops@.len() - k,
        {
            if stops[k] == s[i] {
                hit = true;
            }
            k = k + 1;
        }
        assert(hit == stops@.contains(s@[i as int]));
        let ghost rest = s@.skip(i as int);
        assert(rest[0] == s@[i as int]);
        if hit {
            assert(take_until(rest, stops@) =~= Seq::<char>::empty());
            assert(s@.take(i as int) + Seq::<char>::empty() =~= s@.take(i as int));
            return chars_slice(s, 0, i);
        }
        assert(rest.drop_first() =~= s@.skip(i + 1));
        assert(s@.take(i as int) + (seq![s@[i as int]] + take_until(s@.skip(i + 1), stops@)) =~= s@.take(
            i + 1,
        ) + take_until(s@.skip(i + 1), stops@));
        i = i + 1;
    }
    assert(s@.skip(i as int) =~= Seq::<char>::empty());
    assert(s@.take(i as int) =~= s@);
    assert(s@ + Seq::<char>::empty() =~= s@);
    chars_slice(s, 0, s.len())
}

// ---------------------------------------------------------------------------
// Pieces of a line
// ---------------------------------------------------------------------------

/// Opening braces less closing braces.
pub open spec fn brace_delta_of(s: Seq<char>) -> int
    decreases s.len(),
{
    if s.len() == 0 {
        0
    } else {
        brace_delta_of(s.drop_last()) + if s.last() == '{' {
            1int
        } else if s.last() == '}' {
            -1int
        } else {
            0int
        }
    }
}

pub fn brace_delta(line: &[char]) -> (r: i64)
    requires
        line@.len() <= i32::MAX,
    ensures
        r == brace_delta_of(line@),
        -line@.len() <= r <= line@.len(),
{
    let mut d: i64 = 0;
    let mut i: usize = 0;
    while i < line.len()
        invariant
            i <= line@.len(),
            line@.len() <= i32::MAX,
            d == brace_delta_of(line@.take(i as int)),
            -i <= d <= i,
        decreases line@.len() - i,
    {
        assert(line@.take(i + 1).drop_last() =~= line@.take(i as int));
        if line[i] == '{' {
            d = d + 1;
        } else if line[i] == '}' {
            d = d - 1;
        }
        i = i + 1;
    }
    assert(line@.take(i as int) =~= line@);
    d
}

/// The name of the enum declared on a line.
pub open spec fn enum_name_of(line: Seq<char>) -> Option<Seq<char>> {
    if !contains(line, "enum "@) {
        None
    } else {
        let name = trim(
            take_until(line.skip(first_occ(line, "enum "@) + "enum "@.len()), seq![' ', '{', '<']),
        );
        if name.len() == 0 {
            None
        } else {
            Some(name)
        }
    }
}

fn stop_chars(a: char, b: char, c: char) -> (r: Vec<char>)
    ensures
        r@ == seq![a, b, c],
{
    let mut r = Vec::new();
    r.push(a);
    r.push(b);
    r.push(c);
    assert(r@ =~= seq![a, b, c]);
    r
}

#[verifier::rlimit(40)]
pub fn enum_name_from_line(line: &[char]) -> (r: Option<Vec<char>>)
    ensures
        match r {
            Some(v) => enum_name_of(line@) == Some(v@),
            None => enum_name_of(line@) is None,
        },
{
    let pat = chars_of("enum ");
    let n = line.len();
    match find_str(line, pat.as_slice()) {
        None => None,
        Some(i) => {
            let after = chars_slice(line, i + pat.len(), n);
            assert(after@ =~= line@.skip(i + pat@.len()));
            let piece = chars_take_until(after.as_slice(), stop_chars(' ', '{', '<').as_slice());
            let name = trim_chars(piece.as_slice());
            if name.len() == 0 {
                None
            } else {
                Some(name)
            }
        },
    }
}

/// The variant a line of an enum body declares: its name up to `(`, `{`
/// or `,`, when it starts with an upper-case letter.
pub open spec fn variant_name_of(line: Seq<char>) -> Option<Seq<char>> {
    let candidate = trim(take_until(line, seq!['(', '{', ',']));
    if candidate.len() == 0 || !is_upper(candidate[0]) {
        None
    } else {
        Some(candidate)
    }
}

pub fn clap_variant_name(line: &[char]) -> (r: Option<Vec<char>>)
    ensures
        match r {
            Some(v) => variant_name_of(line@) == Some(v@),
            None => variant_name_of(line@) is None,
        },
{
    let piece = chars_take_until(line, stop_chars('(', '{', ',').as_slice());
    let candidate = trim_chars(piece.as_slice());
    if candidate.len() == 0 || !('A' <= candidate[0] && candidate[0] <= 'Z') {
        None
    } else {
        Some(candidate)
    }
}

/// Kebab case of a variant name: a `-` before each upper-case letter but
/// the first, and every letter lower-case.
pub open spec fn kebab(v: Seq<char>) -> Seq<char>
    decreases v.len(),
{
    if v.len() == 0 {
        Seq::empty()
    } else {
        let c = v.last();
        kebab(v.drop_last()) + if is_upper(c) {
            if v.len() > 1 {
                seq!['-', lower_char(c)]
            } else {
                seq![lower_char(c)]
            }
        } else {
            seq![c]
        }
    }
}

pub fn variant_to_kebab(value: &[char]) -> (r: Vec<char>)
    ensures
        r@ == kebab(value@),
{
    let mut out: Vec<char> = Vec::new();
    let mut i: usize = 0;
    while i < value.len()
        invariant
            i <= value@.len(),
            out@ == kebab(value@.take(i as int)),
        decreases value@.len() - i,
    {
        let c = value[i];
        let ghost before = out@;
        assert(value@.take(i + 1).drop_last() =~= value@.take(i as int));
        assert(value@.take(i + 1).last() == c);
        if 'A' <= c && c <= 'Z' {
            if i > 0 {
                out.push('-');
            }
            out.push(ascii_lower(c));
        } else {
            out.push(c);
        }
        assert(out@ =~= kebab(value@.take(i + 1)));
        i = i + 1;
    }
    assert(value@.take(i as int) =~= value@);
    out
}

/// The text between the first two double quotes of `s`.
pub open spec fn quoted_of(s: Seq<char>) -> Option<Seq<char>> {
    if !has_char(s, '"') {
        None
    } else {
        let rest = s.skip(first_index(s, '"') + 1);
        if !has_char(rest, '"') {
            None
        } else {
            Some(rest.take(first_index(rest, '"')))
        }
    }
}

fn quoted(s: &[char]) -> (r: Option<Vec<char>>)
    ensures
        match r {
            Some(v) => quoted_of(s@) == Some(v@),
            None => quoted_of(s@) is None,
        },
{
    proof {
        lemma_first_index(s@, '"');
    }
    match find_first(s, '"') {
        None => {
            assert(!has_char(s@, '"'));
            None
        },
        Some(i) => {
            assert(has_char(s@, '"'));
            let n = s.len();
            assert(i < n);
            let rest = chars_slice(s, i + 1, n);
            assert(rest@ =~= s@.skip(i + 1));
            proof {
                lemma_first_index(rest@, '"');
            }
            match find_first(rest.as_slice(), '"') {
                None => {
                    assert(!has_char(rest@, '"'));
                    None
                },
                Some(j) => {
                    assert(has_char(rest@, '"'));
                    let v = chars_slice(rest.as_slice(), 0, j);
                    assert(v@ =~= rest@.take(j as int));
                    Some(v)
                },
            }
        },
    }
}

pub fn first_string_literal(line: &[char]) -> (r: Option<String>)
    ensures
        match r {
            Some(v) => quoted_of(line@) == Some(v@),
            None => quoted_of(line@) is None,
        },
{
    match quoted(line) {
        Some(v) => Some(string_from_chars(v.as_slice())),
        None => None,
    }
}

/// The quoted name of a `name = "…"` attribute.
pub open spec fn attr_name_of(attr: Seq<char>) -> Option<Seq<char>> {
    if !contains(attr, "name"@) {
        None
    } else {
        quoted_of(attr.skip(first_occ(attr, "name"@)))
    }
}

/// The name the first naming attribute gives.
pub open spec fn command_name_of(attrs: Seq<Seq<char>>) -> Option<Seq<char>>
    decreases attrs.len(),
{
    if attrs.len() == 0 {
        None
    } else {
        match attr_name_of(attrs[0]) {
            Some(n) => Some(n),
            None => command_name_of(attrs.drop_first()),
        }
    }
}

fn attr_name(attr: &[char]) -> (r: Option<Vec<char>>)
    ensures
        match r {
            Some(v) => attr_name_of(attr@) == Some(v@),
            None => attr_name_of(attr@) is None,
        },
{
    let pat = chars_of("name");
    match find_str(attr, pat.as_slice()) {
        None => None,
        Some(i) => {
            let after = chars_slice(attr, i, attr.len());
            assert(after@ =~= attr@.skip(i as int));
            quoted(after.as_slice())
        },
    }
}

pub fn command_name_from_attrs(attrs: &Vec<Vec<char>>) -> (r: Option<Vec<char>>)
    ensures
        match r {
            Some(v) => command_name_of(views(attrs@)) == Some(v@),
            None => command_name_of(views(attrs@)) is None,
        },
{
    let mut i: usize = 0;
    assert(views(attrs@).skip(0) =~= views(attrs@));
    while i < attrs.len()
        invariant
            i <= attrs@.len(),
            command_name_of(views(attrs@)) == command_name_of(views(attrs@).skip(i as int)),
        decreases attrs@.len() - i,
    {
        assert(views(attrs@).skip(i as int)[0] == attrs@[i as int]@);
        assert(views(attrs@).skip(i as int).drop_first() =~= views(attrs@).skip(i + 1));
        match attr_name(attrs[i].as_slice()) {
            Some(v) => return Some(v),
            None => {},
        }
        i = i + 1;
    }
    assert(views(attrs@).skip(i as int) =~= Seq::<Seq<char>>::empty());
    None
}

/// `s` without every trailing `/`.
pub open spec fn trim_trailing_slashes(s: Seq<char>) -> Seq<char>
    decreases s.len(),
{
    if s.len() > 0 && s.last() == '/' {
        trim_trailing_slashes(s.drop_last())
    } else {
        s
    }
}

/// A route that names a page of its own: rooted, not `/`, not a
/// playground, schema or socket endpoint, and at most three segments deep
/// unless it has parameters.
pub open spec fn primary_route(route: Seq<char>) -> bool {
    let normal = trim_trailing_slashes(route);
    let last = after_last(normal, '/');
    &&& starts_with(route, seq!['/'])
    &&& route != seq!['/']
    &&& !(last == "playground"@ || last == "sdl"@ || last == "ws"@)
    &&& (segments(normal, '/').len() <= 3 || has_char(route, '{') || has_char(route, ':'))
}

pub fn is_primary_http_route(route: &str) -> (r: bool)
    ensures
        r == primary_route(route@),
{
    let rc = chars_of(route);
    if rc.len() == 0 || rc[0] != '/' {
        assert(!starts_with(route@, seq!['/'])) by {
            if rc@.len() > 0 {
                assert(rc@.subrange(0, 1)[0] == rc@[0]);
            }
        }
        return false;
    }
    assert(starts_with(route@, seq!['/'])) by {
        assert(rc@.subrange(0, 1) =~= seq!['/']);
    }
    if rc.len() == 1 {
        assert(rc@ =~= seq!['/']);
        return false;
    }
    assert(route@ != seq!['/']) by {
        if route@ == seq!['/'] {
            assert(route@.len() == 1);
        }
    }
    let mut n = rc.len();
    assert(rc@.take(n as int) =~= rc@);
    while n > 0 && rc[n - 1] == '/'
        invariant
            n <= rc@.len(),
            trim_trailing_slashes(rc@) == trim_trailing_slashes(rc@.take(n as int)),
        decreases n,
    {
        assert(rc@.take(n as int).drop_last() =~= rc@.take(n - 1));
        n = n - 1;
    }
    let normal = chars_slice(rc.as_slice(), 0, n);
    assert(normal@ =~= rc@.take(n as int));
    assert(trim_trailing_slashes(normal@) == normal@);
    let last = chars_after_last(normal.as_slice(), '/');
    let p = chars_of("playground");
    let s = chars_of("sdl");
    let w = chars_of("ws");
    if chars_eq(last.as_slice(), p.as_slice()) || chars_eq(last.as_slice(), s.as_slice()) || chars_eq(
        last.as_slice(),
        w.as_slice(),
    ) {
        return false;
    }
    let segs = split_segments(normal.as_slice(), '/');
    segs.len() <= 3 || chars_has(rc.as_slice(), '{') || chars_has(rc.as_slice(), ':')
}


proof fn lemma_lines_bounds(s: Seq<char>)
    ensures
        lines_of(s).len() <= s.len() + 1,
        forall|i: int| 0 <= i < lines_of(s).len() ==> (#[trigger] lines_of(s)[i]).len() <= s.len(),
{
    lemma_split_bounds(s, '\n');
    let parts = split(s, '\n');
    let n = parts.len() as int;
    assert forall|i: int| 0 <= i < lines_of(s).len() implies (#[trigger] lines_of(s)[i]).len() <= s.len() by {
        if i < n - 1 {
            assert(lines_of(s)[i] == strip_cr(parts[i]));
            assert(parts[i].len() <= s.len());
        } else {
            assert(lines_of(s)[i] == parts[n - 1]);
            assert(parts[n - 1].len() <= s.len());
        }
    }
}

// ---------------------------------------------------------------------------
// Clap subcommands
// ---------------------------------------------------------------------------

/// A subcommand: its name on the command line and its help text.
#[derive(Debug, Clone, PartialEq, Eq)]
pub struct ClapCommandDescriptor {
    pub name: String,
    pub about: String,
}

pub open spec fn command_views(v: Seq<ClapCommandDescriptor>) -> Seq<(Seq<char>, Seq<char>)> {
    v.map_values(|c: ClapCommandDescriptor| (c.name@, c.about@))
}

/// Where a scan of an enum body stands.
pub struct ClapScanV {
    pub in_enum: bool,
    pub depth: int,
    pub docs: Seq<Seq<char>>,
    pub attrs: Seq<Seq<char>>,
    pub commands: Seq<(Seq<char>, Seq<char>)>,
    pub done: bool,
}

pub open spec fn clap_start() -> ClapScanV {
    ClapScanV {
        in_enum: false,
        depth: 0,
        docs: Seq::empty(),
        attrs: Seq::empty(),
        commands: Seq::empty(),
        done: false,
    }
}

pub open spec fn hidden(attrs: Seq<Seq<char>>) -> bool {
    exists|i: int| 0 <= i < attrs.len() && contains(#[trigger] attrs[i], "hide = true"@)
}

/// One line of the scan for the subcommands of `enum_name`: the enum opens
/// on the line that names it; inside, doc comments and attributes gather
/// until a variant takes them, hidden variants are skipped, and the scan
/// ends where the braces close.
pub open spec fn clap_step(st: ClapScanV, line: Seq<char>, enum_name: Seq<char>) -> ClapScanV {
    let t = trim(line);
    if st.done {
        st
    } else if !st.in_enum {
        if contains(t, "enum "@ + enum_name) {
            ClapScanV { in_enum: true, depth: st.depth + brace_delta_of(t), ..st }
        } else {
            st
        }
    } else {
        let d = st.depth + brace_delta_of(t);
        if d <= 0 {
            ClapScanV { depth: d, done: true, ..st }
        } else if starts_with(t, "///"@) {
            ClapScanV { depth: d, docs: st.docs.push(trim(t.skip("///"@.len() as int))), ..st }
        } else if starts_with(t, "#["@) {
            ClapScanV { depth: d, attrs: st.attrs.push(t), ..st }
        } else {
            match variant_name_of(t) {
                None => ClapScanV { depth: d, ..st },
                Some(v) => if hidden(st.attrs) {
                    ClapScanV { depth: d, docs: Seq::empty(), attrs: Seq::empty(), ..st }
                } else {
                    let name = match command_name_of(st.attrs) {
                        Some(n) => n,
                        None => kebab(v),
                    };
                    ClapScanV {
                        depth: d,
                        docs: Seq::empty(),
                        attrs: Seq::empty(),
                        commands: st.commands.push((name, join(st.docs, " "@))),
                        ..st
                    }
                },
            }
        }
    }
}

pub open spec fn clap_scan(lines: Seq<Seq<char>>, enum_name: Seq<char>) -> ClapScanV
    decreases lines.len(),
{
    if lines.len() == 0 {
        clap_start()
    } else {
        clap_step(clap_scan(lines.drop_last(), enum_name), lines.last(), enum_name)
    }
}

proof fn lemma_clap_done(lines: Seq<Seq<char>>, enum_name: Seq<char>, k: int)
    requires
        0 <= k <= lines.len(),
        clap_scan(lines.take(k), enum_name).done,
    ensures
        clap_scan(lines, enum_name) == clap_scan(lines.take(k), enum_name),
    decreases lines.len() - k,
{
    if k < lines.len() {
        assert(lines.take(k + 1).drop_last() =~= lines.take(k));
        lemma_clap_done(lines, enum_name, k + 1);
    } else {
        assert(lines.take(k) =~= lines);
    }
}

fn any_hidden(attrs: &Vec<Vec<char>>) -> (r: bool)
    ensures
        r == hidden(views(attrs@)),
{
    let pat = chars_of("hide = true");
    let mut i: usize = 0;
    while i < attrs.len()
        invariant
            i <= attrs@.len(),
            pat@ == "hide = true"@,
            forall|j: int| 0 <= j < i ==> !contains(#[trigger] views(attrs@)[j], "hide = true"@),
        decreases attrs@.len() - i,
    {
        assert(views(attrs@)[i as int] == attrs@[i as int]@);
        if crate::text::chars_contains(attrs[i].as_slice(), pat.as_slice()) {
            return true;
        }
        i = i + 1;
    }
    false
}

fn space() -> (r: Vec<char>)
    ensures
        r@ == " "@,
{
    chars_of(" ")
}

/// A scan of an enum body in progress.
pub struct ClapScan {
    pub in_enum: bool,
    pub depth: i64,
    pub docs: Vec<Vec<char>>,
    pub attrs: Vec<Vec<char>>,
    pub commands: Vec<ClapCommandDescriptor>,
    pub done: bool,
}

impl View for ClapScan {
    type V = ClapScanV;

    open spec fn view(&self) -> ClapScanV {
        ClapScanV {
            in_enum: self.in_enum,
            depth: self.depth as int,
            docs: views(self.docs@),
            attrs: views(self.attrs@),
            commands: command_views(self.commands@),
            done: self.done,
        }
    }
}

impl ClapScan {
    pub fn new() -> (r: Self)
        ensures
            r@ == clap_start(),
    {
        let r = ClapScan {
            in_enum: false,
            depth: 0,
            docs: Vec::new(),
            attrs: Vec::new(),
            commands: Vec::new(),
            done: false,
        };
        assert(r@.docs =~= Seq::<Seq<char>>::empty());
        assert(r@.attrs =~= Seq::<Seq<char>>::empty());
        assert(r@.commands =~= Seq::<(Seq<char>, Seq<char>)>::empty());
        r
    }

    /// Takes one line of the text.
    #[verifier::rlimit(50)]
    #[verifier::spinoff_prover]
    pub fn step(&mut self, line: &[char], enum_name: &str)
        requires
            line@.len() <= i32::MAX,
            -0x4000_0000_0000_0000 <= old(self).depth <= 0x4000_0000_0000_0000,
        ensures
            final(self)@ == clap_step(old(self)@, line@, enum_name@),
            -line@.len() <= final(self).depth - old(self).depth <= line@.len(),
    {
        if self.done {
            return ;
        }
        let t = trim_chars(line);
        proof {
            crate::text::lemma_trim_len(line@);
        }
        let delta = brace_delta(t.as_slice());
        if !self.in_enum {
            let mut opening = chars_of("enum ");
            append_chars(&mut opening, enum_name);
            if find_str(t.as_slice(), opening.as_slice()).is_some() {
                self.in_enum = true;
                self.depth = self.depth + delta;
            }
            return ;
        }
        self.depth = self.depth + delta;
        if self.depth <= 0 {
            self.done = true;
            return ;
        }
        let slashes = chars_of("///");
        let attr_open = chars_of("#[");
        if chars_starts_with(t.as_slice(), slashes.as_slice()) {
            let rest = chars_slice(t.as_slice(), slashes.len(), t.len());
            assert(rest@ =~= t@.skip("///"@.len() as int));
            let ghost before = self.docs@;
            self.docs.push(trim_chars(rest.as_slice()));
            assert(views(self.docs@) =~= views(before).push(trim(t@.skip("///"@.len() as int))));
            return ;
        }
        if chars_starts_with(t.as_slice(), attr_open.as_slice()) {
            let ghost before = self.attrs@;
            self.attrs.push(t);
            assert(views(self.attrs@) =~= views(before).push(t@));
            return ;
        }
        match clap_variant_name(t.as_slice()) {
            None => {},
            Some(v) => {
                if any_hidden(&self.attrs) {
                    self.docs = Vec::new();
                    self.attrs = Vec::new();
                    assert(views(self.docs@) =~= Seq::<Seq<char>>::empty());
                    assert(views(self.attrs@) =~= Seq::<Seq<char>>::empty());
                } else {
                    let name = match command_name_from_attrs(&self.attrs) {
                        Some(n) => n,
                        None => variant_to_kebab(v.as_slice()),
                    };
                    let about = join_chars(&self.docs, space().as_slice());
                    let ghost before = self.commands@;
                    self.commands.push(
                        ClapCommandDescriptor {
                            name: string_from_chars(name.as_slice()),
                            about: string_from_chars(about.as_slice()),
                        },
                    );
                    assert(command_views(self.commands@) =~= command_views(before).push(
                        (name@, join(views(self.docs@), " "@)),
                    ));
                    self.docs = Vec::new();
                    self.attrs = Vec::new();
                    assert(views(self.docs@) =~= Seq::<Seq<char>>::empty());
                    assert(views(self.attrs@) =~= Seq::<Seq<char>>::empty());
                }
            },
        }
    }
}

/// The subcommands of the clap enum `enum_name` in `content`, in order.
pub fn extract_clap_enum_commands(content: &str, enum_name: &str) -> (r: Vec<ClapCommandDescriptor>)
    requires
        content@.len() <= i32::MAX,
    ensures
        command_views(r@) == clap_scan(lines_of(content@), enum_name@).commands,
{
    let cc = chars_of(content);
    let lines = text_lines(cc.as_slice());
    let ghost lv = views(lines@);
    let ghost len = content@.len() as int;
    proof {
        lemma_lines_bounds(content@);
    }
    let mut scan = ClapScan::new();
    let mut i: usize = 0;
    assert(lv.take(0) =~= Seq::<Seq<char>>::empty());
    while i < lines.len() && !scan.done
        invariant
            i <= lines@.len(),
            lv == views(lines@),
            lv == lines_of(content@),
            len == content@.len(),
            len <= i32::MAX,
            lv.len() <= len + 1,
            forall|k: int| 0 <= k < lv.len() ==> (#[trigger] lv[k]).len() <= len,
            scan@ == clap_scan(lv.take(i as int), enum_name@),
            -(i * len) <= scan.depth <= i * len,
        decreases lines@.len() - i,
    {
        assert(lv.take(i + 1).drop_last() =~= lv.take(i as int));
        assert(lv.take(i + 1).last() == lines@[i as int]@);
        assert(lv[i as int] == lines@[i as int]@);
        proof {
            assert(i * len + len == (i + 1) * len) by (nonlinear_arith);
            assert(i * len <= 0x4000_0000_0000_0000) by (nonlinear_arith)
                requires
                    i <= len + 1,
                    0 <= len <= 0x7fff_ffff,
            ;
        }
        scan.step(lines[i].as_slice(), enum_name);
        i = i + 1;
    }
    proof {
        if i == lines@.len() {
            assert(lv.take(i as int) =~= lv);
        } else {
            lemma_clap_done(lv, enum_name@, i as int);
        }
    }
    scan.commands
}


/// The enums derived as clap subcommands: the first line after a
/// `#[derive(..Subcommand..)]` line that declares an enum names one.
pub struct NameScanV {
    pub names: Seq<Seq<char>>,
    pub saw_derive: bool,
}

pub open spec fn name_step(st: NameScanV, line: Seq<char>) -> NameScanV {
    let t = trim(line);
    if starts_with(t, "#[derive"@) && contains(t, "Subcommand"@) {
        NameScanV { names: st.names, saw_derive: true }
    } else if st.saw_derive {
        NameScanV {
            names: match enum_name_of(t) {
                Some(n) => st.names.push(n),
                None => st.names,
            },
            saw_derive: false,
        }
    } else {
        NameScanV { names: st.names, saw_derive: false }
    }
}

pub open spec fn name_scan(lines: Seq<Seq<char>>) -> NameScanV
    decreases lines.len(),
{
    if lines.len() == 0 {
        NameScanV { names: Seq::empty(), saw_derive: false }
    } else {
        name_step(name_scan(lines.drop_last()), lines.last())
    }
}

/// Each named enum with its subcommands, for those that have any.
pub open spec fn subcommand_enums_of(names: Seq<Seq<char>>, content: Seq<char>) -> Seq<(Seq<char>, Seq<(Seq<char>, Seq<char>)>)>
    decreases names.len(),
{
    if names.len() == 0 {
        Seq::empty()
    } else {
        let prev = subcommand_enums_of(names.drop_last(), content);
        let commands = clap_scan(lines_of(content), names.last()).commands;
        if commands.len() > 0 {
            prev.push((names.last(), commands))
        } else {
            prev
        }
    }
}

pub open spec fn enum_views(v: Seq<(String, Vec<ClapCommandDescriptor>)>) -> Seq<(Seq<char>, Seq<(Seq<char>, Seq<char>)>)> {
    v.map_values(|e: (String, Vec<ClapCommandDescriptor>)| (e.0@, command_views(e.1@)))
}

pub fn extract_clap_subcommand_enums(content: &str) -> (r: Vec<(String, Vec<ClapCommandDescriptor>)>)
    requires
        content@.len() <= i32::MAX,
    ensures
        enum_views(r@) == subcommand_enums_of(name_scan(lines_of(content@)).names, content@),
{
    let cc = chars_of(content);
    let lines = text_lines(cc.as_slice());
    let ghost lv = views(lines@);
    let derive = chars_of("#[derive");
    let subcommand = chars_of("Subcommand");
    let mut names: Vec<Vec<char>> = Vec::new();
    let mut saw = false;
    let mut i: usize = 0;
    assert(lv.take(0) =~= Seq::<Seq<char>>::empty());
    assert(views(names@) =~= Seq::<Seq<char>>::empty());
    while i < lines.len()
        invariant
            i <= lines@.len(),
            lv == views(lines@),
            derive@ == "#[derive"@,
            subcommand@ == "Subcommand"@,
            name_scan(lv.take(i as int)) == (NameScanV { names: views(names@), saw_derive: saw }),
        decreases lines@.len() - i,
    {
        assert(lv.take(i + 1).drop_last() =~= lv.take(i as int));
        assert(lv.take(i + 1).last() == lines@[i as int]@);
        let t = trim_chars(lines[i].as_slice());
        if chars_starts_with(t.as_slice(), derive.as_slice()) && crate::text::chars_contains(
            t.as_slice(),
            subcommand.as_slice(),
        ) {
            saw = true;
        } else if saw {
            match enum_name_from_line(t.as_slice()) {
                Some(n) => {
                    let ghost before = names@;
                    names.push(n);
                    assert(views(names@) =~= views(before).push(n@));
                },
                None => {},
            }
            saw = false;
        }
        i = i + 1;
    }
    assert(lv.take(i as int) =~= lv);
    let ghost all_names = views(names@);
    let mut out: Vec<(String, Vec<ClapCommandDescriptor>)> = Vec::new();
    let mut k: usize = 0;
    assert(enum_views(out@) =~= Seq::<(Seq<char>, Seq<(Seq<char>, Seq<char>)>)>::empty());
    while k < names.len()
        invariant
            k <= names@.len(),
            all_names == views(names@),
            content@.len() <= i32::MAX,
            enum_views(out@) == subcommand_enums_of(all_names.take(k as int), content@),
        decreases names@.len() - k,
    {
        assert(all_names.take(k + 1).drop_last() =~= all_names.take(k as int));
        assert(all_names.take(k + 1).last() == names@[k as int]@);
        let name = string_from_chars(names[k].as_slice());
        let commands = extract_clap_enum_commands(content, name.as_str());
        if commands.len() > 0 {
            let ghost before = out@;
            out.push((name, commands));
            assert(enum_views(out@) =~= enum_views(before).push((names@[k as int]@, command_views(commands@))));
        }
        k = k + 1;
    }
    assert(all_names.take(k as int) =~= all_names);
    out
}

// ---------------------------------------------------------------------------
// Axum routes
// ---------------------------------------------------------------------------

/// The first quoted text on lines `k..end`.
pub open spec fn route_from(lines: Seq<Seq<char>>, k: int, end: int) -> Option<Seq<char>>
    decreases end - k,
{
    if k >= end || k < 0 {
        None
    } else {
        match quoted_of(lines[k]) {
            Some(r) => Some(r),
            None => route_from(lines, k + 1, end),
        }
    }
}

/// The route of a `.route(` call: the first quoted text on its line or the
/// three after it.
pub open spec fn route_near(lines: Seq<Seq<char>>, idx: int) -> Option<Seq<char>> {
    route_from(lines, idx, if idx + 4 < lines.len() { idx + 4 } else { lines.len() as int })
}

pub open spec fn axum_routes(lines: Seq<Seq<char>>, upto: int) -> Set<Seq<char>>
    decreases upto,
{
    if upto <= 0 {
        Set::empty()
    } else {
        let prev = axum_routes(lines, upto - 1);
        let idx = upto - 1;
        if contains(lines[idx], ".route("@) {
            match route_near(lines, idx) {
                Some(r) => prev.insert(r),
                None => prev,
            }
        } else {
            prev
        }
    }
}

fn route_near_exec(lines: &Vec<Vec<char>>, idx: usize) -> (r: Option<String>)
    requires
        idx < lines@.len(),
    ensures
        match r {
            Some(v) => route_near(views(lines@), idx as int) == Some(v@),
            None => route_near(views(lines@), idx as int) is None,
        },
{
    let ghost lv = views(lines@);
    let end = if lines.len() - idx > 4 { idx + 4 } else { lines.len() };
    let mut k = idx;
    while k < end
        invariant
            idx <= k <= end,
            end <= lines@.len(),
            lv == views(lines@),
            end == (if idx + 4 < lv.len() { idx + 4 } else { lv.len() as int }),
            route_from(lv, idx as int, end as int) == route_from(lv, k as int, end as int),
        decreases end - k,
    {
        assert(lv[k as int] == lines@[k as int]@);
        match first_string_literal(lines[k].as_slice()) {
            Some(v) => return Some(v),
            None => {},
        }
        k = k + 1;
    }
    None
}

/// The routes axum routers in `content` declare.
pub fn extract_axum_route_paths(content: &str) -> (r: crate::order::StrSet)
    ensures
        r@.to_set() == axum_routes(lines_of(content@), lines_of(content@).len() as int),
{
    let cc = chars_of(content);
    let lines = text_lines(cc.as_slice());
    let ghost lv = views(lines@);
    let pat = chars_of(".route(");
    let mut routes = crate::order::StrSet::new();
    assert(routes@.to_set() =~= Set::<Seq<char>>::empty());
    let mut i: usize = 0;
    while i < lines.len()
        invariant
            i <= lines@.len(),
            lv == views(lines@),
            pat@ == ".route("@,
            routes@.to_set() == axum_routes(lv, i as int),
        decreases lines@.len() - i,
    {
        assert(lv[i as int] == lines@[i as int]@);
        if crate::text::chars_contains(lines[i].as_slice(), pat.as_slice()) {
            match route_near_exec(&lines, i) {
                Some(route) => {
                    routes.insert(route);
                },
                None => {},
            }
        }
        i = i + 1;
    }
    routes
}

} // verus!
