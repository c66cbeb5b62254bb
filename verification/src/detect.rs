//! Parsers of the outputs of the monitor-detection tools `xrandr`,
//! `wlr-randr` and `gnome-randr`, and of the machine id file. Running the
//! tools and reading files is the caller's part; here the text is turned
//! into monitors.

use vstd::prelude::*;
use vstd::string::{StrSliceExecFns, StringExecFns};
use crate::ids::{name_based_id, parse_id, random_id, uuid_parse, uuid_v5_dns};
use crate::platform::InputError;
use crate::monitor::{Monitor, UNIT_SCALE};
use crate::text::{
    all_digits, contains, digits_value, index_of, is_digit, lines, parse_i32, parse_i32_spec, parse_u32,
    parse_u32_spec, split_once, starts_with, to_chars, tokens, trim, contains_chars, find_char, line_ranges,
    starts_with_chars, token_ranges, trim_range, trim_end_nondigits, trim_end_nondigits_range, parse_milli, parse_milli_spec,
};

verus! {

broadcast use vstd::string::group_string_axioms;

/// What a tool reports of one monitor.
pub struct MonitorSpec {
    pub name: Seq<char>,
    pub width: u32,
    pub height: u32,
    pub x: i32,
    pub y: i32,
    pub scale_milli: u32,
}

/// `m` is a new monitor of machine `machine_id` with the reported values.
pub open spec fn describes(m: Monitor, d: MonitorSpec, machine_id: u128) -> bool {
    &&& m.machine_id == machine_id
    &&& m.name@ == d.name
    &&& m.width == d.width
    &&& m.height == d.height
    &&& m.x == d.x
    &&& m.y == d.y
    &&& m.scale_milli == d.scale_milli
    &&& m.grid_col is None
    &&& m.grid_row is None
}

/// The monitors `ms` are new monitors of `machine_id` with the reported
/// values `ds`, in order.
pub open spec fn all_describe(ms: Seq<Monitor>, ds: Seq<MonitorSpec>, machine_id: u128) -> bool {
    &&& ms.len() == ds.len()
    &&& forall|k: int| 0 <= k < ms.len() ==> describes(#[trigger] ms[k], ds[k], machine_id)
}

/// The first token that looks like a geometry: it holds an `'x'` and a `'+'`.
pub open spec fn geometry_index(parts: Seq<Seq<char>>) -> Option<int>
    decreases parts.len(),
{
    if parts.len() == 0 {
        None
    } else {
        match geometry_index(parts.drop_last()) {
            Some(k) => Some(k),
            None => if index_of(parts.last(), 'x') is Some && index_of(parts.last(), '+') is Some {
                Some(parts.len() - 1)
            } else {
                None
            },
        }
    }
}

/// A geometry `WxH+X+Y` read as width, height, x and y.
pub open spec fn geometry(g: Seq<char>) -> Option<(u32, u32, i32, i32)> {
    match split_once(g, '+') {
        Some((res, offsets)) => match split_once(res, 'x') {
            Some((w, h)) => match split_once(offsets, '+') {
                Some((x, y)) => match (parse_u32_spec(w), parse_u32_spec(h), parse_i32_spec(x), parse_i32_spec(y)) {
                    (Some(w), Some(h), Some(x), Some(y)) => Some((w, h, x, y)),
                    _ => None,
                },
                None => None,
            },
            None => None,
        },
        None => None,
    }
}

/// No `c` in `a` means `c` is not found in it.
proof fn lemma_index_of_absent(a: Seq<char>, c: char)
    requires
        forall|i: int| 0 <= i < a.len() ==> a[i] != c,
    ensures
        index_of(a, c) is None,
    decreases a.len(),
{
    if a.len() > 0 {
        lemma_index_of_absent(a.drop_last(), c);
    }
}

/// The first `c` of `a + [c] + b`, where `a` holds none, is the one after `a`.
proof fn lemma_index_of_after(a: Seq<char>, c: char, b: Seq<char>)
    requires
        forall|i: int| 0 <= i < a.len() ==> a[i] != c,
    ensures
        index_of(a + seq![c] + b, c) == Some(a.len() as int),
    decreases b.len(),
{
    if b.len() == 0 {
        assert((a + seq![c] + b).drop_last() =~= a);
        lemma_index_of_absent(a, c);
    } else {
        lemma_index_of_after(a, c, b.drop_last());
        assert((a + seq![c] + b).drop_last() =~= a + seq![c] + b.drop_last());
    }
}

/// A geometry `WxH+X+Y` reads as its four numbers exactly as each parses
/// (the offsets as `i32`, negative ones included, the size as `u32`), and
/// is refused when one of them does not parse.
pub proof fn law_geometry_fields(w: Seq<char>, h: Seq<char>, x: Seq<char>, y: Seq<char>)
    requires
        forall|i: int| 0 <= i < w.len() ==> w[i] != 'x' && w[i] != '+',
        forall|i: int| 0 <= i < h.len() ==> h[i] != '+',
        forall|i: int| 0 <= i < x.len() ==> x[i] != '+',
    ensures
        geometry(w + seq!['x'] + h + seq!['+'] + x + seq!['+'] + y) == (match (
            parse_u32_spec(w),
            parse_u32_spec(h),
            parse_i32_spec(x),
            parse_i32_spec(y),
        ) {
            (Some(a), Some(b), Some(c), Some(d)) => Some((a, b, c, d)),
            _ => None::<(u32, u32, i32, i32)>,
        }),
{
    let res = w + seq!['x'] + h;
    let offs = x + seq!['+'] + y;
    let g = w + seq!['x'] + h + seq!['+'] + x + seq!['+'] + y;
    assert(g =~= res + seq!['+'] + offs);
    assert forall|i: int| 0 <= i < res.len() implies res[i] != '+' by {
        if i < w.len() {
            assert(res[i] == w[i]);
        } else if i > w.len() {
            assert(res[i] == h[i - w.len() - 1]);
        }
    }
    lemma_index_of_after(res, '+', offs);
    assert(g.take(res.len() as int) =~= res);
    assert(g.skip(res.len() as int + 1) =~= offs);
    lemma_index_of_after(w, 'x', h);
    assert(res.take(w.len() as int) =~= w);
    assert(res.skip(w.len() as int + 1) =~= h);
    lemma_index_of_after(x, '+', y);
    assert(offs.take(x.len() as int) =~= x);
    assert(offs.skip(x.len() as int + 1) =~= y);
}

/// A monitor line of `xrandr --query`: the name is the first token, the
/// geometry the first token holding `'x'` and `'+'`.
pub open spec fn xrandr_line(line: Seq<char>) -> Option<MonitorSpec> {
    let parts = tokens(line);
    if parts.len() == 0 {
        None
    } else {
        match geometry_index(parts) {
            Some(k) => match geometry(parts[k]) {
                Some(g) => Some(MonitorSpec { name: parts[0], width: g.0, height: g.1, x: g.2, y: g.3, scale_milli: UNIT_SCALE }),
                None => None,
            },
            None => None,
        }
    }
}

/// The monitors of an `xrandr --query` output: each line holding
/// `" connected"` that reads as a monitor line.
pub open spec fn xrandr_monitors(ls: Seq<Seq<char>>) -> Seq<MonitorSpec>
    decreases ls.len(),
{
    if ls.len() == 0 {
        seq![]
    } else {
        let prev = xrandr_monitors(ls.drop_last());
        if contains(ls.last(), " connected"@) {
            match xrandr_line(ls.last()) {
                Some(d) => prev.push(d),
                None => prev,
            }
        } else {
            prev
        }
    }
}

/// The chars of a string literal pattern.
fn pattern(s: &str) -> (v: Vec<char>)
    ensures
        v@ == s@,
{
    to_chars(s)
}

/// The text `cs[a..b]` as a string.
fn range_string(text: &str, cs: &Vec<char>, a: usize, b: usize) -> (s: String)
    requires
        cs@ == text@,
        a <= b <= cs@.len(),
    ensures
        s@ == cs@.subrange(a as int, b as int),
{
    text.substring_char(a, b).to_owned()
}

/// The geometry read from `cs[a..b]`.
fn geometry_in(cs: &Vec<char>, a: usize, b: usize) -> (r: Option<(u32, u32, i32, i32)>)
    requires
        a <= b <= cs@.len(),
    ensures
        r == geometry(cs@.subrange(a as int, b as int)),
{
    let ghost g = cs@.subrange(a as int, b as int);
    let plus = match find_char(cs, a, b, '+') {
        Some(p) => p,
        None => return None,
    };
    assert(g.take(plus - a) =~= cs@.subrange(a as int, plus as int));
    assert(g.skip(plus - a + 1) =~= cs@.subrange(plus + 1, b as int));
    assert(split_once(g, '+') == Some((cs@.subrange(a as int, plus as int), cs@.subrange(plus + 1, b as int))));
    let xi = match find_char(cs, a, plus, 'x') {
        Some(p) => p,
        None => return None,
    };
    assert(cs@.subrange(a as int, plus as int).take(xi - a) =~= cs@.subrange(a as int, xi as int));
    assert(cs@.subrange(a as int, plus as int).skip(xi - a + 1) =~= cs@.subrange(xi + 1, plus as int));
    assert(split_once(cs@.subrange(a as int, plus as int), 'x') == Some((cs@.subrange(a as int, xi as int), cs@.subrange(xi + 1, plus as int))));
    let p2 = match find_char(cs, plus + 1, b, '+') {
        Some(p) => p,
        None => return None,
    };
    assert(cs@.subrange(plus + 1, b as int).take(p2 - plus - 1) =~= cs@.subrange(plus + 1, p2 as int));
    assert(cs@.subrange(plus + 1, b as int).skip(p2 - plus) =~= cs@.subrange(p2 + 1, b as int));
    assert(split_once(cs@.subrange(plus + 1, b as int), '+') == Some((cs@.subrange(plus + 1, p2 as int), cs@.subrange(p2 + 1, b as int))));
    let w = parse_u32(cs, a, xi);
    let h = parse_u32(cs, xi + 1, plus);
    let x = parse_i32(cs, plus + 1, p2);
    let y = parse_i32(cs, p2 + 1, b);
    match (w, h, x, y) {
        (Some(w), Some(h), Some(x), Some(y)) => Some((w, h, x, y)),
        _ => None,
    }
}

proof fn lemma_geometry_index_take(parts: Seq<Seq<char>>, k: int)
    requires
        0 <= k < parts.len(),
    ensures
        geometry_index(parts.take(k + 1)) == (match geometry_index(parts.take(k)) {
            Some(i) => Some(i),
            None => if index_of(parts[k], 'x') is Some && index_of(parts[k], '+') is Some {
                Some(k)
            } else {
                None
            },
        }),
{
    assert(parts.take(k + 1).drop_last() =~= parts.take(k));
}

proof fn lemma_geometry_index_extend(parts: Seq<Seq<char>>, k: int)
    requires
        0 <= k <= parts.len(),
        geometry_index(parts.take(k)) is Some,
    ensures
        geometry_index(parts) == geometry_index(parts.take(k)),
    decreases parts.len() - k,
{
    if k < parts.len() {
        lemma_geometry_index_take(parts, k);
        lemma_geometry_index_extend(parts, k + 1);
    } else {
        assert(parts.take(k) =~= parts);
    }
}

/// The monitor line `cs[a..b]` of `xrandr`, read as a new monitor of
/// `machine_id`.
fn xrandr_line_in(text: &str, cs: &Vec<char>, a: usize, b: usize, machine_id: u128) -> (r: Option<Monitor>)
    requires
        cs@ == text@,
        a <= b <= cs@.len(),
    ensures
        match xrandr_line(cs@.subrange(a as int, b as int)) {
            Some(d) => r matches Some(m) && describes(m, d, machine_id),
            None => r is None,
        },
{
    let ghost line = cs@.subrange(a as int, b as int);
    let parts = token_ranges(cs, a, b);
    if parts.len() == 0 {
        return None;
    }
    let ghost ps = tokens(line);
    let mut k: usize = 0;
    while k < parts.len()
        invariant
            k <= parts@.len(),
            parts@.len() == ps.len(),
            ps == tokens(line),
            line == cs@.subrange(a as int, b as int),
            a <= b <= cs@.len(),
            cs@ == text@,
            forall|q: int| 0 <= q < parts@.len() ==> a <= (#[trigger] parts@[q]).0 <= parts@[q].1 <= b
                && cs@.subrange(parts@[q].0 as int, parts@[q].1 as int) == ps[q],
            geometry_index(ps.take(k as int)) is None,
        decreases parts.len() - k,
    {
        let (ga, gb) = parts[k];
        proof {
            lemma_geometry_index_take(ps, k as int);
        }
        if find_char(cs, ga, gb, 'x').is_some() && find_char(cs, ga, gb, '+').is_some() {
            proof {
                lemma_geometry_index_extend(ps, k + 1);
            }
            let (na, nb) = parts[0];
            assert(a <= parts@[0].0 <= parts@[0].1 <= b);
            return match geometry_in(cs, ga, gb) {
                Some((w, h, x, y)) => Some(Monitor::new(machine_id, range_string(text, cs, na, nb), w, h, x, y)),
                None => None,
            };
        }
        k += 1;
    }
    assert(ps.take(ps.len() as int) =~= ps);
    None
}

/// Read one line of `xrandr --query` as a monitor of `machine_id`.
pub fn parse_xrandr_line(line: &str, machine_id: u128) -> (r: Option<Monitor>)
    ensures
        match xrandr_line(line@) {
            Some(d) => r matches Some(m) && describes(m, d, machine_id),
            None => r is None,
        },
{
    let cs = to_chars(line);
    assert(cs@.subrange(0, cs@.len() as int) =~= cs@);
    xrandr_line_in(line, &cs, 0, cs.len(), machine_id)
}

/// The monitors listed in the output of `xrandr --query`.
pub fn parse_xrandr_output(output: &str, machine_id: u128) -> (ms: Vec<Monitor>)
    ensures
        all_describe(ms@, xrandr_monitors(lines(output@)), machine_id),
{
    let cs = to_chars(output);
    assert(cs@.subrange(0, cs@.len() as int) =~= cs@);
    let ls = line_ranges(&cs, 0, cs.len());
    let ghost lss = lines(output@);
    let connected = pattern(" connected");
    let mut ms: Vec<Monitor> = Vec::new();
    let mut k: usize = 0;
    while k < ls.len()
        invariant
            k <= ls@.len(),
            ls@.len() == lss.len(),
            cs@ == output@,
            connected@ == " connected"@,
            forall|q: int| 0 <= q < ls@.len() ==> 0 <= (#[trigger] ls@[q]).0 <= ls@[q].1 <= cs@.len()
                && cs@.subrange(ls@[q].0 as int, ls@[q].1 as int) == lss[q],
            all_describe(ms@, xrandr_monitors(lss.take(k as int)), machine_id),
        decreases ls.len() - k,
    {
        let (a, b) = ls[k];
        assert(0 <= ls@[k as int].0 <= ls@[k as int].1 <= cs@.len());
        assert(lss.take(k + 1).drop_last() =~= lss.take(k as int));
        assert(lss.take(k + 1).last() == lss[k as int]);
        if contains_chars(&cs, a, b, &connected) {
            if let Some(m) = xrandr_line_in(output, &cs, a, b, machine_id) {
                ms.push(m);
            }
        }
        k += 1;
    }
    assert(lss.take(lss.len() as int) =~= lss);
    ms
}

} // verus!

verus! {

/// The state of the `wlr-randr` reader between lines.
pub struct WlrState {
    pub monitors: Seq<MonitorSpec>,
    pub name: Option<Seq<char>>,
    pub width: Option<u32>,
    pub height: Option<u32>,
    pub x: i32,
    pub y: i32,
}

/// A line that starts a new output: not indented and not blank.
pub open spec fn is_header(line: Seq<char>) -> bool {
    !starts_with(line, " "@) && !starts_with(line, "\t"@) && trim(line).len() > 0
}

/// The output in progress, finished: kept when name and mode are known.
pub open spec fn wlr_flush(st: WlrState) -> Seq<MonitorSpec> {
    match (st.name, st.width, st.height) {
        (Some(n), Some(w), Some(h)) => st.monitors.push(
            MonitorSpec { name: n, width: w, height: h, x: st.x, y: st.y, scale_milli: UNIT_SCALE },
        ),
        _ => st.monitors,
    }
}

/// `s` parsed as an `i32`, 0 where it is none.
pub open spec fn i32_or_zero(s: Seq<char>) -> i32 {
    match parse_i32_spec(s) {
        Some(v) => v,
        None => 0,
    }
}

/// A new output starts at an unindented line: the one in progress is
/// finished, and the new one is named by the first word of the line.
pub open spec fn wlr_header(st: WlrState, line: Seq<char>) -> WlrState {
    let t = trim(line);
    if is_header(line) {
        let flushed = wlr_flush(st);
        let pushed = flushed.len() > st.monitors.len();
        WlrState {
            monitors: flushed,
            name: Some(match split_once(t, ' ') {
                Some(p) => p.0,
                None => t,
            }),
            width: None,
            height: None,
            x: if pushed { 0 } else { st.x },
            y: if pushed { 0 } else { st.y },
        }
    } else {
        st
    }
}

/// A mode line (holding `"px,"`) marked as the current one, by `'*'` or by
/// the word `current`, gives the current mode `WxH`.
pub open spec fn wlr_mode(st: WlrState, t: Seq<char>) -> WlrState {
    if contains(t, "px,"@) && (index_of(t, '*') is Some || contains(t, "current"@)) && tokens(t).len() > 0 {
        match split_once(tokens(t)[0], 'x') {
            Some((w, h)) => WlrState { width: parse_u32_spec(w), height: parse_u32_spec(h), ..st },
            None => st,
        }
    } else {
        st
    }
}

/// A line starting with `"Position:"` gives the position `X,Y` (0 for a
/// coordinate that does not parse).
pub open spec fn wlr_position(st: WlrState, t: Seq<char>) -> WlrState {
    if starts_with(t, "Position:"@) {
        match split_once(trim(t.skip("Position:"@.len() as int)), ',') {
            Some((x, y)) => WlrState { x: i32_or_zero(trim(x)), y: i32_or_zero(trim(y)), ..st },
            None => st,
        }
    } else {
        st
    }
}

/// One line of `wlr-randr` output read into the state.
pub open spec fn wlr_step(st: WlrState, line: Seq<char>) -> WlrState {
    wlr_position(wlr_mode(wlr_header(st, line), trim(line)), trim(line))
}

/// An indented `Position: X,Y` line of `wlr-randr` places the output in
/// progress at `X,Y` exactly as the coordinates read as `i32`, negative
/// ones (left of or above the origin) included; a coordinate that is no
/// `i32` gives 0.
pub proof fn law_wlr_position_kept(st: WlrState, line: Seq<char>, xs: Seq<char>, ys: Seq<char>)
    requires
        starts_with(line, " "@) || starts_with(line, "\t"@),
        starts_with(trim(line), "Position:"@),
        split_once(trim(trim(line).skip(9)), ',') == Some((xs, ys)),
    ensures
        parse_i32_spec(trim(xs)) matches Some(v) ==> wlr_step(st, line).x == v,
        parse_i32_spec(trim(xs)) is None ==> wlr_step(st, line).x == 0,
        parse_i32_spec(trim(ys)) matches Some(v) ==> wlr_step(st, line).y == v,
        parse_i32_spec(trim(ys)) is None ==> wlr_step(st, line).y == 0,
{
    reveal_strlit("Position:");
    assert(!is_header(line));
}

/// The reader state after the lines `ls`.
pub open spec fn wlr_fold(ls: Seq<Seq<char>>) -> WlrState
    decreases ls.len(),
{
    if ls.len() == 0 {
        WlrState { monitors: seq![], name: None, width: None, height: None, x: 0, y: 0 }
    } else {
        wlr_step(wlr_fold(ls.drop_last()), ls.last())
    }
}

/// The monitors of a `wlr-randr` output.
pub open spec fn wlr_monitors(ls: Seq<Seq<char>>) -> Seq<MonitorSpec> {
    wlr_flush(wlr_fold(ls))
}

/// The reader state in executable form: the name as a range of the text.
struct Reader {
    monitors: Vec<Monitor>,
    name: Option<(usize, usize)>,
    width: Option<u32>,
    height: Option<u32>,
    x: i32,
    y: i32,
    scale_milli: u32,
}

/// `r` holds the state `st` over the text `cs`.
spec fn reader_holds(r: Reader, st: WlrState, cs: Seq<char>, machine_id: u128) -> bool {
    &&& all_describe(r.monitors@, st.monitors, machine_id)
    &&& match r.name {
        Some((a, b)) => a <= b <= cs.len() && st.name == Some(cs.subrange(a as int, b as int)),
        None => st.name is None,
    }
    &&& r.width == st.width
    &&& r.height == st.height
    &&& r.x == st.x
    &&& r.y == st.y
}

/// Finish the output in progress into `r.monitors` (reporting whether one
/// was added), and forget its name and mode.
fn flush(text: &str, cs: &Vec<char>, r: &mut Reader, machine_id: u128) -> (pushed: bool)
    requires
        cs@ == text@,
        match old(r).name {
            Some((a, b)) => a <= b <= cs@.len(),
            None => true,
        },
    ensures
        pushed == (old(r).name is Some && old(r).width is Some && old(r).height is Some),
        pushed ==> final(r).monitors@.len() == old(r).monitors@.len() + 1 && final(r).monitors@.drop_last()
            == old(r).monitors@ && describes(
            final(r).monitors@.last(),
            MonitorSpec {
                name: cs@.subrange(old(r).name.unwrap().0 as int, old(r).name.unwrap().1 as int),
                width: old(r).width->0,
                height: old(r).height->0,
                x: old(r).x,
                y: old(r).y,
                scale_milli: old(r).scale_milli,
            },
            machine_id,
        ),
        !pushed ==> final(r).monitors@ == old(r).monitors@,
        final(r).name is None,
        final(r).width is None,
        final(r).height is None,
        final(r).x == old(r).x,
        final(r).y == old(r).y,
        final(r).scale_milli == old(r).scale_milli,
{
    let name = r.name.take();
    let width = r.width.take();
    let height = r.height.take();
    match (name, width, height) {
        (Some((a, b)), Some(w), Some(h)) => {
            let mut m = Monitor::new(machine_id, range_string(text, cs, a, b), w, h, r.x, r.y);
            m.scale_milli = r.scale_milli;
            r.monitors.push(m);
            assert(r.monitors@.drop_last() =~= old(r).monitors@);
            true
        },
        _ => false,
    }
}

proof fn lemma_all_describe_push(ms: Seq<Monitor>, ds: Seq<MonitorSpec>, m: Monitor, d: MonitorSpec, machine_id: u128)
    requires
        all_describe(ms, ds, machine_id),
        describes(m, d, machine_id),
    ensures
        all_describe(ms.push(m), ds.push(d), machine_id),
{
    assert forall|k: int| 0 <= k < ms.push(m).len() implies describes(#[trigger] ms.push(m)[k], ds.push(d)[k], machine_id) by {
        if k < ms.len() {
            assert(ms.push(m)[k] == ms[k]);
        }
    }
}

/// Whether line `cs[a..b]` starts a new output.
fn header_line(cs: &Vec<char>, a: usize, b: usize, space: &Vec<char>, tab: &Vec<char>) -> (h: bool)
    requires
        a <= b <= cs@.len(),
        space@ == " "@,
        tab@ == "\t"@,
    ensures
        h == is_header(cs@.subrange(a as int, b as int)),
{
    let (ta, tb) = trim_range(cs, a, b);
    !starts_with_chars(cs, a, b, space) && !starts_with_chars(cs, a, b, tab) && ta < tb
}

/// The header phase of a `wlr-randr` line.
fn wlr_header_exec(
    text: &str,
    cs: &Vec<char>,
    r: &mut Reader,
    a: usize,
    b: usize,
    space: &Vec<char>,
    tab: &Vec<char>,
    machine_id: u128,
    Ghost(st): Ghost<WlrState>,
)
    requires
        cs@ == text@,
        a <= b <= cs@.len(),
        space@ == " "@,
        tab@ == "\t"@,
        old(r).scale_milli == UNIT_SCALE,
        reader_holds(*old(r), st, cs@, machine_id),
    ensures
        final(r).scale_milli == UNIT_SCALE,
        reader_holds(*final(r), wlr_header(st, cs@.subrange(a as int, b as int)), cs@, machine_id),
{
    if header_line(cs, a, b, space, tab) {
        let (ta, tb) = trim_range(cs, a, b);
        let ghost before = r.monitors@;
        let pushed = flush(text, cs, r, machine_id);
        proof {
            if pushed {
                lemma_all_describe_push(before, st.monitors, r.monitors@.last(), MonitorSpec {
                    name: st.name->0,
                    width: st.width->0,
                    height: st.height->0,
                    x: st.x,
                    y: st.y,
                    scale_milli: UNIT_SCALE,
                }, machine_id);
                assert(r.monitors@ =~= before.push(r.monitors@.last()));
            }
        }
        if pushed {
            r.x = 0;
            r.y = 0;
        }
        let name_end = match find_char(cs, ta, tb, ' ') {
            Some(p) => p,
            None => tb,
        };
        proof {
            let tt = cs@.subrange(ta as int, tb as int);
            match index_of(tt, ' ') {
                Some(i) => {
                    assert(tt.take(i) =~= cs@.subrange(ta as int, name_end as int));
                },
                None => {},
            }
        }
        r.name = Some((ta, name_end));
    }
}

/// The mode phase of a `wlr-randr` line, on its trimmed text `cs[ta..tb]`.
fn wlr_mode_exec(
    cs: &Vec<char>,
    r: &mut Reader,
    ta: usize,
    tb: usize,
    px: &Vec<char>,
    current: &Vec<char>,
    machine_id: u128,
    Ghost(st): Ghost<WlrState>,
)
    requires
        ta <= tb <= cs@.len(),
        px@ == "px,"@,
        current@ == "current"@,
        reader_holds(*old(r), st, cs@, machine_id),
    ensures
        final(r).scale_milli == old(r).scale_milli,
        reader_holds(*final(r), wlr_mode(st, cs@.subrange(ta as int, tb as int)), cs@, machine_id),
{
    if contains_chars(cs, ta, tb, px) && (find_char(cs, ta, tb, '*').is_some() || contains_chars(cs, ta, tb, current)) {
        let toks = token_ranges(cs, ta, tb);
        if toks.len() > 0 {
            let (wa, wb) = toks[0];
            assert(ta <= toks@[0].0 <= toks@[0].1 <= tb);
            if let Some(xi) = find_char(cs, wa, wb, 'x') {
                proof {
                    let w0 = cs@.subrange(wa as int, wb as int);
                    assert(w0.take(xi - wa) =~= cs@.subrange(wa as int, xi as int));
                    assert(w0.skip(xi - wa + 1) =~= cs@.subrange(xi + 1, wb as int));
                }
                r.width = parse_u32(cs, wa, xi);
                r.height = parse_u32(cs, xi + 1, wb);
            }
        }
    }
}

/// The position phase of a `wlr-randr` line, on its trimmed text.
fn wlr_position_exec(
    cs: &Vec<char>,
    r: &mut Reader,
    ta: usize,
    tb: usize,
    position: &Vec<char>,
    machine_id: u128,
    Ghost(st): Ghost<WlrState>,
)
    requires
        ta <= tb <= cs@.len(),
        position@ == "Position:"@,
        reader_holds(*old(r), st, cs@, machine_id),
    ensures
        final(r).scale_milli == old(r).scale_milli,
        reader_holds(*final(r), wlr_position(st, cs@.subrange(ta as int, tb as int)), cs@, machine_id),
{
    if starts_with_chars(cs, ta, tb, position) {
        let pa = ta + position.len();
        let (qa, qb) = trim_range(cs, pa, tb);
        proof {
            assert(cs@.subrange(ta as int, tb as int).skip(position@.len() as int) =~= cs@.subrange(pa as int, tb as int));
        }
        if let Some(comma) = find_char(cs, qa, qb, ',') {
            let (xa, xb) = trim_range(cs, qa, comma);
            let (ya, yb) = trim_range(cs, comma + 1, qb);
            proof {
                let q = cs@.subrange(qa as int, qb as int);
                assert(q.take(comma - qa) =~= cs@.subrange(qa as int, comma as int));
                assert(q.skip(comma - qa + 1) =~= cs@.subrange(comma + 1, qb as int));
            }
            r.x = match parse_i32(cs, xa, xb) {
                Some(v) => v,
                None => 0,
            };
            r.y = match parse_i32(cs, ya, yb) {
                Some(v) => v,
                None => 0,
            };
        }
    }
}

/// Finish the last output after the whole text was read.
fn finish(text: &str, cs: &Vec<char>, r: &mut Reader, machine_id: u128, Ghost(st): Ghost<WlrState>)
    requires
        cs@ == text@,
        old(r).scale_milli == UNIT_SCALE,
        reader_holds(*old(r), st, cs@, machine_id),
    ensures
        all_describe(final(r).monitors@, wlr_flush(st), machine_id),
{
    let ghost before = r.monitors@;
    let pushed = flush(text, cs, r, machine_id);
    proof {
        if pushed {
            lemma_all_describe_push(before, st.monitors, r.monitors@.last(), MonitorSpec {
                name: st.name->0,
                width: st.width->0,
                height: st.height->0,
                x: st.x,
                y: st.y,
                scale_milli: UNIT_SCALE,
            }, machine_id);
            assert(r.monitors@ =~= before.push(r.monitors@.last()));
        }
    }
}

/// Read the output of `wlr-randr` (one block per output: an unindented
/// name line, the modes with the current one marked `*` or `current`, and a
/// `Position:` line) as monitors of `machine_id`.
pub fn parse_wlr_randr_output(output: &str, machine_id: u128) -> (ms: Vec<Monitor>)
    ensures
        all_describe(ms@, wlr_monitors(lines(output@)), machine_id),
{
    let cs = to_chars(output);
    assert(cs@.subrange(0, cs@.len() as int) =~= cs@);
    let ls = line_ranges(&cs, 0, cs.len());
    let ghost lss = lines(output@);
    let space = pattern(" ");
    let tab = pattern("\t");
    let px = pattern("px,");
    let current = pattern("current");
    let position = pattern("Position:");
    let mut r = Reader { monitors: Vec::new(), name: None, width: None, height: None, x: 0, y: 0, scale_milli: UNIT_SCALE };
    let mut k: usize = 0;
    while k < ls.len()
        invariant
            k <= ls@.len(),
            ls@.len() == lss.len(),
            cs@ == output@,
            space@ == " "@,
            tab@ == "\t"@,
            px@ == "px,"@,
            current@ == "current"@,
            position@ == "Position:"@,
            r.scale_milli == UNIT_SCALE,
            forall|q: int| 0 <= q < ls@.len() ==> 0 <= (#[trigger] ls@[q]).0 <= ls@[q].1 <= cs@.len()
                && cs@.subrange(ls@[q].0 as int, ls@[q].1 as int) == lss[q],
            reader_holds(r, wlr_fold(lss.take(k as int)), cs@, machine_id),
        decreases ls.len() - k,
    {
        let (a, b) = ls[k];
        assert(0 <= ls@[k as int].0 <= ls@[k as int].1 <= cs@.len());
        assert(lss.take(k + 1).drop_last() =~= lss.take(k as int));
        assert(lss.take(k + 1).last() == lss[k as int]);
        let ghost st = wlr_fold(lss.take(k as int));
        let ghost line = lss[k as int];
        let (ta, tb) = trim_range(&cs, a, b);
        wlr_header_exec(output, &cs, &mut r, a, b, &space, &tab, machine_id, Ghost(st));
        wlr_mode_exec(&cs, &mut r, ta, tb, &px, &current, machine_id, Ghost(wlr_header(st, line)));
        wlr_position_exec(&cs, &mut r, ta, tb, &position, machine_id, Ghost(wlr_mode(wlr_header(st, line), trim(line))));
        k += 1;
    }
    assert(lss.take(lss.len() as int) =~= lss);
    finish(output, &cs, &mut r, machine_id, Ghost(wlr_fold(lss)));
    r.monitors
}

} // verus!

verus! {

/// The state of the `gnome-randr` reader between lines.
pub struct GnomeState {
    pub monitors: Seq<MonitorSpec>,
    pub name: Option<Seq<char>>,
    pub width: Option<u32>,
    pub height: Option<u32>,
    pub x: i32,
    pub y: i32,
    pub scale_milli: u32,
}

/// The output in progress, finished: kept when name and mode are known.
pub open spec fn gnome_flush(st: GnomeState) -> Seq<MonitorSpec> {
    match (st.name, st.width, st.height) {
        (Some(n), Some(w), Some(h)) => st.monitors.push(
            MonitorSpec { name: n, width: w, height: h, x: st.x, y: st.y, scale_milli: st.scale_milli },
        ),
        _ => st.monitors,
    }
}

/// A new output starts at an unindented line, named by the whole line.
pub open spec fn gnome_header(st: GnomeState, line: Seq<char>) -> GnomeState {
    if is_header(line) {
        let flushed = gnome_flush(st);
        let pushed = flushed.len() > st.monitors.len();
        GnomeState {
            monitors: flushed,
            name: Some(trim(line)),
            width: None,
            height: None,
            x: if pushed { 0 } else { st.x },
            y: if pushed { 0 } else { st.y },
            scale_milli: if pushed { UNIT_SCALE } else { st.scale_milli },
        }
    } else {
        st
    }
}

/// A word `WxH` (not a `px` unit), with trailing non-digits of each side
/// dropped, read as a resolution.
pub open spec fn gnome_word(w: Seq<char>) -> Option<(u32, u32)> {
    if index_of(w, 'x') is Some && !contains(w, "px"@) {
        match split_once(w, 'x') {
            Some((a, b)) => match (parse_u32_spec(trim_end_nondigits(a)), parse_u32_spec(trim_end_nondigits(b))) {
                (Some(p), Some(q)) => Some((p, q)),
                _ => None,
            },
            None => None,
        }
    } else {
        None
    }
}

/// The resolution after reading the words: the last word that reads as one.
pub open spec fn gnome_words(words: Seq<Seq<char>>, init: (Option<u32>, Option<u32>)) -> (Option<u32>, Option<u32>)
    decreases words.len(),
{
    if words.len() == 0 {
        init
    } else {
        match gnome_word(words.last()) {
            Some((w, h)) => (Some(w), Some(h)),
            None => gnome_words(words.drop_last(), init),
        }
    }
}

/// A line starting with `"associated physical monitors:"` or holding
/// `"current"` may give the resolution.
pub open spec fn gnome_resolution(st: GnomeState, t: Seq<char>) -> GnomeState {
    if starts_with(t, "associated physical monitors:"@) || contains(t, "current"@) {
        let wh = gnome_words(tokens(t), (st.width, st.height));
        GnomeState { width: wh.0, height: wh.1, ..st }
    } else {
        st
    }
}

/// A line starting with `"scale:"` gives the scale (1.0 where it does not
/// read as a decimal).
pub open spec fn gnome_scale(st: GnomeState, t: Seq<char>) -> GnomeState {
    if starts_with(t, "scale:"@) {
        GnomeState {
            scale_milli: match parse_milli_spec(trim(t.skip("scale:"@.len() as int))) {
                Some(v) => v,
                None => UNIT_SCALE,
            },
            ..st
        }
    } else {
        st
    }
}

/// One line of `gnome-randr` output read into the state.
pub open spec fn gnome_step(st: GnomeState, line: Seq<char>) -> GnomeState {
    gnome_scale(gnome_resolution(gnome_header(st, line), trim(line)), trim(line))
}

/// The reader state after the lines `ls`.
pub open spec fn gnome_fold(ls: Seq<Seq<char>>) -> GnomeState
    decreases ls.len(),
{
    if ls.len() == 0 {
        GnomeState { monitors: seq![], name: None, width: None, height: None, x: 0, y: 0, scale_milli: UNIT_SCALE }
    } else {
        gnome_step(gnome_fold(ls.drop_last()), ls.last())
    }
}

/// The monitors of a `gnome-randr` output.
pub open spec fn gnome_monitors(ls: Seq<Seq<char>>) -> Seq<MonitorSpec> {
    gnome_flush(gnome_fold(ls))
}

/// `r` holds the state `st` over the text `cs`.
spec fn gnome_holds(r: Reader, st: GnomeState, cs: Seq<char>, machine_id: u128) -> bool {
    &&& all_describe(r.monitors@, st.monitors, machine_id)
    &&& match r.name {
        Some((a, b)) => a <= b <= cs.len() && st.name == Some(cs.subrange(a as int, b as int)),
        None => st.name is None,
    }
    &&& r.width == st.width
    &&& r.height == st.height
    &&& r.x == st.x
    &&& r.y == st.y
    &&& r.scale_milli == st.scale_milli
}

fn gnome_header_exec(
    text: &str,
    cs: &Vec<char>,
    r: &mut Reader,
    a: usize,
    b: usize,
    space: &Vec<char>,
    tab: &Vec<char>,
    machine_id: u128,
    Ghost(st): Ghost<GnomeState>,
)
    requires
        cs@ == text@,
        a <= b <= cs@.len(),
        space@ == " "@,
        tab@ == "\t"@,
        gnome_holds(*old(r), st, cs@, machine_id),
    ensures
        gnome_holds(*final(r), gnome_header(st, cs@.subrange(a as int, b as int)), cs@, machine_id),
{
    if header_line(cs, a, b, space, tab) {
        let (ta, tb) = trim_range(cs, a, b);
        let ghost before = r.monitors@;
        let pushed = flush(text, cs, r, machine_id);
        proof {
            if pushed {
                lemma_all_describe_push(before, st.monitors, r.monitors@.last(), MonitorSpec {
                    name: st.name->0,
                    width: st.width->0,
                    height: st.height->0,
                    x: st.x,
                    y: st.y,
                    scale_milli: st.scale_milli,
                }, machine_id);
                assert(r.monitors@ =~= before.push(r.monitors@.last()));
            }
        }
        if pushed {
            r.x = 0;
            r.y = 0;
            r.scale_milli = UNIT_SCALE;
        }
        r.name = Some((ta, tb));
    }
}

/// The resolution read from one word `cs[wa..wb]`.
fn gnome_word_exec(cs: &Vec<char>, wa: usize, wb: usize, px: &Vec<char>) -> (r: Option<(u32, u32)>)
    requires
        wa <= wb <= cs@.len(),
        px@ == "px"@,
    ensures
        r == gnome_word(cs@.subrange(wa as int, wb as int)),
{
    let xi = match find_char(cs, wa, wb, 'x') {
        Some(p) => p,
        None => return None,
    };
    if contains_chars(cs, wa, wb, px) {
        return None;
    }
    proof {
        let w0 = cs@.subrange(wa as int, wb as int);
        assert(w0.take(xi - wa) =~= cs@.subrange(wa as int, xi as int));
        assert(w0.skip(xi - wa + 1) =~= cs@.subrange(xi + 1, wb as int));
    }
    let we = trim_end_nondigits_range(cs, wa, xi);
    let he = trim_end_nondigits_range(cs, xi + 1, wb);
    match (parse_u32(cs, wa, we), parse_u32(cs, xi + 1, he)) {
        (Some(p), Some(q)) => Some((p, q)),
        _ => None,
    }
}

proof fn lemma_gnome_words_take(words: Seq<Seq<char>>, k: int, init: (Option<u32>, Option<u32>))
    requires
        0 <= k < words.len(),
    ensures
        gnome_words(words.take(k + 1), init) == match gnome_word(words[k]) {
            Some((w, h)) => (Some(w), Some(h)),
            None => gnome_words(words.take(k), init),
        },
{
    assert(words.take(k + 1).drop_last() =~= words.take(k));
}

fn gnome_resolution_exec(
    cs: &Vec<char>,
    r: &mut Reader,
    ta: usize,
    tb: usize,
    assoc: &Vec<char>,
    current: &Vec<char>,
    px: &Vec<char>,
    machine_id: u128,
    Ghost(st): Ghost<GnomeState>,
)
    requires
        ta <= tb <= cs@.len(),
        assoc@ == "associated physical monitors:"@,
        current@ == "current"@,
        px@ == "px"@,
        gnome_holds(*old(r), st, cs@, machine_id),
    ensures
        gnome_holds(*final(r), gnome_resolution(st, cs@.subrange(ta as int, tb as int)), cs@, machine_id),
{
    if starts_with_chars(cs, ta, tb, assoc) || contains_chars(cs, ta, tb, current) {
        let toks = token_ranges(cs, ta, tb);
        let ghost ws = tokens(cs@.subrange(ta as int, tb as int));
        let ghost init = (st.width, st.height);
        let mut k: usize = 0;
        while k < toks.len()
            invariant
                k <= toks@.len(),
                toks@.len() == ws.len(),
                ta <= tb <= cs@.len(),
                px@ == "px"@,
                forall|q: int| 0 <= q < toks@.len() ==> ta <= (#[trigger] toks@[q]).0 <= toks@[q].1 <= tb
                    && cs@.subrange(toks@[q].0 as int, toks@[q].1 as int) == ws[q],
                (r.width, r.height) == gnome_words(ws.take(k as int), init),
                all_describe(r.monitors@, st.monitors, machine_id),
                match r.name {
                    Some((a, b)) => a <= b <= cs@.len() && st.name == Some(cs@.subrange(a as int, b as int)),
                    None => st.name is None,
                },
                r.x == st.x,
                r.y == st.y,
                r.scale_milli == st.scale_milli,
            decreases toks.len() - k,
        {
            let (wa, wb) = toks[k];
            assert(ta <= toks@[k as int].0 <= toks@[k as int].1 <= tb);
            proof {
                lemma_gnome_words_take(ws, k as int, init);
            }
            if let Some((w, h)) = gnome_word_exec(cs, wa, wb, px) {
                r.width = Some(w);
                r.height = Some(h);
            }
            k += 1;
        }
        assert(ws.take(ws.len() as int) =~= ws);
    }
}

fn gnome_scale_exec(cs: &Vec<char>, r: &mut Reader, ta: usize, tb: usize, scale: &Vec<char>, machine_id: u128, Ghost(st): Ghost<GnomeState>)
    requires
        ta <= tb <= cs@.len(),
        scale@ == "scale:"@,
        gnome_holds(*old(r), st, cs@, machine_id),
    ensures
        gnome_holds(*final(r), gnome_scale(st, cs@.subrange(ta as int, tb as int)), cs@, machine_id),
{
    if starts_with_chars(cs, ta, tb, scale) {
        let pa = ta + scale.len();
        let (qa, qb) = trim_range(cs, pa, tb);
        proof {
            assert(cs@.subrange(ta as int, tb as int).skip(scale@.len() as int) =~= cs@.subrange(pa as int, tb as int));
        }
        r.scale_milli = match parse_milli(cs, qa, qb) {
            Some(v) => v,
            None => UNIT_SCALE,
        };
    }
}

fn gnome_finish(text: &str, cs: &Vec<char>, r: &mut Reader, machine_id: u128, Ghost(st): Ghost<GnomeState>)
    requires
        cs@ == text@,
        gnome_holds(*old(r), st, cs@, machine_id),
    ensures
        all_describe(final(r).monitors@, gnome_flush(st), machine_id),
{
    let ghost before = r.monitors@;
    let pushed = flush(text, cs, r, machine_id);
    proof {
        if pushed {
            lemma_all_describe_push(before, st.monitors, r.monitors@.last(), MonitorSpec {
                name: st.name->0,
                width: st.width->0,
                height: st.height->0,
                x: st.x,
                y: st.y,
                scale_milli: st.scale_milli,
            }, machine_id);
            assert(r.monitors@ =~= before.push(r.monitors@.last()));
        }
    }
}

/// Read the output of `gnome-randr` (one block per output: an unindented
/// name line, a line with the current resolution `WxH`, and a `scale:`
/// line) as monitors of `machine_id`.
pub fn parse_gnome_randr_output(output: &str, machine_id: u128) -> (ms: Vec<Monitor>)
    ensures
        all_describe(ms@, gnome_monitors(lines(output@)), machine_id),
{
    let cs = to_chars(output);
    assert(cs@.subrange(0, cs@.len() as int) =~= cs@);
    let ls = line_ranges(&cs, 0, cs.len());
    let ghost lss = lines(output@);
    let space = pattern(" ");
    let tab = pattern("\t");
    let assoc = pattern("associated physical monitors:");
    let current = pattern("current");
    let px = pattern("px");
    let scale = pattern("scale:");
    let mut r = Reader { monitors: Vec::new(), name: None, width: None, height: None, x: 0, y: 0, scale_milli: UNIT_SCALE };
    let mut k: usize = 0;
    while k < ls.len()
        invariant
            k <= ls@.len(),
            ls@.len() == lss.len(),
            cs@ == output@,
            space@ == " "@,
            tab@ == "\t"@,
            assoc@ == "associated physical monitors:"@,
            current@ == "current"@,
            px@ == "px"@,
            scale@ == "scale:"@,
            forall|q: int| 0 <= q < ls@.len() ==> 0 <= (#[trigger] ls@[q]).0 <= ls@[q].1 <= cs@.len()
                && cs@.subrange(ls@[q].0 as int, ls@[q].1 as int) == lss[q],
            gnome_holds(r, gnome_fold(lss.take(k as int)), cs@, machine_id),
        decreases ls.len() - k,
    {
        let (a, b) = ls[k];
        assert(0 <= ls@[k as int].0 <= ls@[k as int].1 <= cs@.len());
        assert(lss.take(k + 1).drop_last() =~= lss.take(k as int));
        assert(lss.take(k + 1).last() == lss[k as int]);
        let ghost st = gnome_fold(lss.take(k as int));
        let ghost line = lss[k as int];
        let (ta, tb) = trim_range(&cs, a, b);
        gnome_header_exec(output, &cs, &mut r, a, b, &space, &tab, machine_id, Ghost(st));
        gnome_resolution_exec(&cs, &mut r, ta, tb, &assoc, &current, &px, machine_id, Ghost(gnome_header(st, line)));
        gnome_scale_exec(&cs, &mut r, ta, tb, &scale, machine_id, Ghost(gnome_resolution(gnome_header(st, line), trim(line))));
        k += 1;
    }
    assert(lss.take(lss.len() as int) =~= lss);
    gnome_finish(output, &cs, &mut r, machine_id, Ghost(gnome_fold(lss)));
    r.monitors
}

} // verus!

verus! {

/// The machine id text laid out as a UUID: `8-4-4-4-12` of its first 32
/// characters.
pub open spec fn uuid_layout(t: Seq<char>) -> Seq<char> {
    t.subrange(0, 8) + "-"@ + t.subrange(8, 12) + "-"@ + t.subrange(12, 16) + "-"@ + t.subrange(16, 20) + "-"@
        + t.subrange(20, 32)
}

/// The first 32 bytes of the trimmed text are ASCII characters, so that
/// cutting them at bytes 8, 12, 16, 20 and 32 cuts between characters.
pub open spec fn machine_id_cuttable(content: Seq<char>) -> bool {
    let t = trim(content);
    vstd::utf8::encode_utf8(t).len() >= 32 ==> t.len() >= 32 && vstd::utf8::is_ascii_chars(t.take(32))
}

/// The machine id from the contents of `/etc/machine-id`: the trimmed text,
/// when it is at least 32 bytes long, laid out as a UUID and parsed.
pub fn machine_id_from_text(content: &str) -> (id: Option<u128>)
    requires
        machine_id_cuttable(content@),
    ensures
        id == if vstd::utf8::encode_utf8(trim(content@)).len() >= 32 {
            uuid_parse(uuid_layout(trim(content@)))
        } else {
            None
        },
{
    let cs = to_chars(content);
    assert(cs@.subrange(0, cs@.len() as int) =~= cs@);
    let (a, b) = trim_range(&cs, 0, cs.len());
    let t = content.substring_char(a, b);
    assert(t@ == trim(content@));
    if t.as_bytes().len() < 32 {
        return None;
    }
    let ghost tv = t@;
    if t.unicode_len() < 32 {
        assert(false);
        return None;
    }
    let mut s = t.substring_char(0, 8).to_owned();
    s.append("-");
    s.append(t.substring_char(8, 12));
    s.append("-");
    s.append(t.substring_char(12, 16));
    s.append("-");
    s.append(t.substring_char(16, 20));
    s.append("-");
    s.append(t.substring_char(20, 32));
    assert(s@ =~= uuid_layout(tv));
    parse_id(s.as_str())
}

/// The host name from the contents of `/etc/hostname`: the trimmed text,
/// or `"unknown"` where the file could not be read.
pub fn hostname_from(contents: Option<&str>) -> (name: String)
    ensures
        name@ == match contents {
            Some(s) => trim(s@),
            None => "unknown"@,
        },
{
    match contents {
        Some(s) => {
            let cs = to_chars(s);
            assert(cs@.subrange(0, cs@.len() as int) =~= cs@);
            let (a, b) = trim_range(&cs, 0, cs.len());
            s.substring_char(a, b).to_owned()
        },
        None => "unknown".to_owned(),
    }
}

} // verus!

verus! {

/// What `/etc/machine-id` gives as the machine id: the trimmed text, when it
/// is at least 32 bytes long, laid out as a UUID and parsed.
pub open spec fn machine_id_in(content: Seq<char>) -> Option<u128> {
    if vstd::utf8::encode_utf8(trim(content)).len() >= 32 {
        uuid_parse(uuid_layout(trim(content)))
    } else {
        None
    }
}

/// The machine id on Linux, from the contents of `/etc/machine-id` where
/// it could be read: the id the file holds, or else a fresh random id.
pub fn linux_machine_id(content: Option<&str>) -> (id: u128)
    requires
        content matches Some(c) ==> machine_id_cuttable(c@),
    ensures
        content matches Some(c) ==> (machine_id_in(c@) is Some ==> machine_id_in(c@) == Some(id)),
{
    match content {
        Some(c) => match machine_id_from_text(c) {
            Some(id) => id,
            None => random_id(),
        },
        None => random_id(),
    }
}

/// The machine id on Windows: the name-based id of the computer name where
/// it is known, or else a fresh random id.
pub fn windows_machine_id(computer_name: Option<&str>) -> (id: u128)
    ensures
        computer_name matches Some(n) ==> id == uuid_v5_dns(n@),
{
    match computer_name {
        Some(n) => name_based_id(n),
        None => random_id(),
    }
}

/// The monitors a tool's output lists, if the tool ran.
pub open spec fn tool_monitors(output: Option<&str>, read: spec_fn(Seq<Seq<char>>) -> Seq<MonitorSpec>) -> Seq<MonitorSpec> {
    match output {
        Some(o) => read(lines(o@)),
        None => Seq::empty(),
    }
}

/// The monitors of the first tool, in the order `xrandr`, `wlr-randr`,
/// `gnome-randr`, whose output lists any; `None` where none does.
pub open spec fn detected_monitors(xrandr: Option<&str>, wlr: Option<&str>, gnome: Option<&str>) -> Option<Seq<MonitorSpec>> {
    let xs = tool_monitors(xrandr, |ls: Seq<Seq<char>>| xrandr_monitors(ls));
    let ws = tool_monitors(wlr, |ls: Seq<Seq<char>>| wlr_monitors(ls));
    let gs = tool_monitors(gnome, |ls: Seq<Seq<char>>| gnome_monitors(ls));
    if xs.len() > 0 {
        Some(xs)
    } else if ws.len() > 0 {
        Some(ws)
    } else if gs.len() > 0 {
        Some(gs)
    } else {
        None
    }
}

/// The monitors of this machine from the outputs of the detection tools
/// (`None` for a tool that could not be run or failed): those of the first
/// tool that lists any; an error where none does.
pub fn detect_from_tools(xrandr: Option<&str>, wlr: Option<&str>, gnome: Option<&str>, machine_id: u128) -> (r: Result<Vec<Monitor>, InputError>)
    ensures
        match detected_monitors(xrandr, wlr, gnome) {
            Some(ds) => r matches Ok(ms) && all_describe(ms@, ds, machine_id),
            None => r == Err::<Vec<Monitor>, InputError>(InputError::NoMonitorsDetected),
        },
{
    if let Some(o) = xrandr {
        let ms = parse_xrandr_output(o, machine_id);
        if ms.len() > 0 {
            return Ok(ms);
        }
    }
    if let Some(o) = wlr {
        let ms = parse_wlr_randr_output(o, machine_id);
        if ms.len() > 0 {
            return Ok(ms);
        }
    }
    if let Some(o) = gnome {
        let ms = parse_gnome_randr_output(o, machine_id);
        if ms.len() > 0 {
            return Ok(ms);
        }
    }
    Err(InputError::NoMonitorsDetected)
}

} // verus!

verus! {

/// The monitors of the machine with host name `hostname`, from the outputs
/// of the detection tools (see `detect_from_tools`): each carries the id of
/// the machine it belongs to, the name-based id of the host name that
/// `Machine::new` gives that machine.
pub fn detect_machine_monitors(hostname: &str, xrandr: Option<&str>, wlr: Option<&str>, gnome: Option<&str>) -> (r: Result<Vec<Monitor>, InputError>)
    ensures
        match detected_monitors(xrandr, wlr, gnome) {
            Some(ds) => r matches Ok(ms) && all_describe(ms@, ds, uuid_v5_dns(hostname@)),
            None => r == Err::<Vec<Monitor>, InputError>(InputError::NoMonitorsDetected),
        },
{
    detect_from_tools(xrandr, wlr, gnome, name_based_id(hostname))
}

} // verus!

verus! {

/// The decimal digit `d` as a character.
pub open spec fn digit_char(d: int) -> char {
    seq!['0', '1', '2', '3', '4', '5', '6', '7', '8', '9'][d]
}

/// The decimal notation of `n`.
pub open spec fn decimal(n: nat) -> Seq<char>
    decreases n,
{
    if n < 10 {
        seq![digit_char(n as int)]
    } else {
        decimal(n / 10).push(digit_char((n % 10) as int))
    }
}

/// The text of one decimal digit.
fn digit_text(d: usize) -> (s: &'static str)
    requires
        d < 10,
    ensures
        s@ == seq![digit_char(d as int)],
{
    match d {
        0 => { proof { reveal_strlit("0"); } "0" },
        1 => { proof { reveal_strlit("1"); } "1" },
        2 => { proof { reveal_strlit("2"); } "2" },
        3 => { proof { reveal_strlit("3"); } "3" },
        4 => { proof { reveal_strlit("4"); } "4" },
        5 => { proof { reveal_strlit("5"); } "5" },
        6 => { proof { reveal_strlit("6"); } "6" },
        7 => { proof { reveal_strlit("7"); } "7" },
        8 => { proof { reveal_strlit("8"); } "8" },
        _ => { proof { reveal_strlit("9"); } "9" },
    }
}

/// The decimal notation of `n` as a string.
pub fn decimal_string(n: usize) -> (s: String)
    ensures
        s@ == decimal(n as nat),
    decreases n,
{
    if n < 10 {
        digit_text(n).to_owned()
    } else {
        let mut s = decimal_string(n / 10);
        s.append(digit_text(n % 10));
        s
    }
}

/// The text without its trailing NUL characters.
pub open spec fn trim_end_nul(s: Seq<char>) -> Seq<char>
    decreases s.len(),
{
    if s.len() > 0 && s.last() == '\0' {
        trim_end_nul(s.drop_last())
    } else {
        s
    }
}

/// The name Windows gives a monitor: its device name without trailing NULs,
/// or `Monitor-` and its position in the enumeration where that is empty.
pub open spec fn windows_monitor_name(device: Seq<char>, index: nat) -> Seq<char> {
    let t = trim_end_nul(device);
    if t.len() == 0 {
        "Monitor-"@ + decimal(index)
    } else {
        t
    }
}

/// The monitor that `EnumDisplayMonitors` reports as the `index`-th, with
/// its device name, its rectangle and its effective horizontal DPI. The
/// scale is the DPI over 96, in thousandths.
pub fn windows_monitor(
    machine_id: u128,
    device: &str,
    left: i32,
    top: i32,
    right: i32,
    bottom: i32,
    dpi_x: u32,
    index: usize,
) -> (m: Monitor)
    requires
        i32::MIN <= right - left <= i32::MAX,
        i32::MIN <= bottom - top <= i32::MAX,
        dpi_x * 1000 / 96 <= u32::MAX,
    ensures
        describes(
            m,
            (MonitorSpec {
                name: windows_monitor_name(device@, index as nat),
                width: (right - left) as u32,
                height: (bottom - top) as u32,
                x: left,
                y: top,
                scale_milli: (dpi_x * 1000 / 96) as u32,
            }),
            machine_id,
        ),
{
    let cs = to_chars(device);
    let mut e: usize = cs.len();
    assert(cs@.take(cs@.len() as int) =~= cs@);
    while e > 0 && cs[e - 1] == '\0'
        invariant
            e <= cs@.len(),
            cs@ == device@,
            trim_end_nul(cs@.take(e as int)) == trim_end_nul(device@),
        decreases e,
    {
        assert(cs@.take(e - 1) =~= cs@.take(e as int).drop_last());
        e -= 1;
    }
    assert(cs@.take(e as int) =~= cs@.subrange(0, e as int));
    let name = if e == 0 {
        proof { reveal_strlit("Monitor-"); }
        let mut s = "Monitor-".to_owned();
        s.append(decimal_string(index).as_str());
        s
    } else {
        device.substring_char(0, e).to_owned()
    };
    proof {
        if e > 0 {
            assert(trim_end_nul(cs@.take(e as int)) == cs@.take(e as int));
        } else {
            assert(cs@.take(0) =~= Seq::<char>::empty());
        }
    }
    let width = #[verifier::truncate] ((right - left) as u32);
    let height = #[verifier::truncate] ((bottom - top) as u32);
    let scale = (dpi_x as u64 * 1000 / 96) as u32;
    let mut m = Monitor::new(machine_id, name, width, height, left, top);
    m.scale_milli = scale;
    m
}

} // verus!
