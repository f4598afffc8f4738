//! Framing of the server-sent events in which the Jin10 MCP server answers a
//! JSON-RPC call, and the choice of the call's result among them.
use vstd::prelude::*;

use crate::json::{value_get, JsonValue};
use crate::text::{chars_of, push_char, split_chars, split_on, starts_with_seq, trim_start_ws};

verus! {

/// The lines of a text as `str::lines` gives them: split at `\n`, a `\r` before
/// the `\n` removed, no empty line after a final line ending.
pub open spec fn lines_spec(s: Seq<char>) -> Seq<Seq<char>> {
    let pieces = split_on(s, '\n');
    let body = if pieces.len() > 0 && pieces.last().len() == 0 {
        (pieces.len() - 1) as int
    } else {
        pieces.len() as int
    };
    Seq::new(body as nat, |k: int| line_at(pieces, k))
}

/// Piece `k`, without its `\r` if a line ending follows it.
pub open spec fn line_at(pieces: Seq<Seq<char>>, k: int) -> Seq<char> {
    if k < pieces.len() - 1 && pieces[k].len() > 0 && pieces[k].last() == '\r' {
        pieces[k].drop_last()
    } else {
        pieces[k]
    }
}

/// Lines joined with `\n` between them.
pub open spec fn join_lines(ls: Seq<Seq<char>>) -> Seq<char>
    decreases ls.len(),
{
    if ls.len() == 0 {
        Seq::<char>::empty()
    } else if ls.len() == 1 {
        ls[0]
    } else {
        join_lines(ls.drop_last()) + seq!['\n'] + ls.last()
    }
}

/// Data blocks finished by a blank line, and the data lines still open, after reading lines.
pub open spec fn sse_state(ls: Seq<Seq<char>>) -> (Seq<Seq<char>>, Seq<Seq<char>>)
    decreases ls.len(),
{
    if ls.len() == 0 {
        (seq![], seq![])
    } else {
        let (blocks, cur) = sse_state(ls.drop_last());
        let line = ls.last();
        if starts_with_seq(line, "data:"@) {
            (blocks, cur.push(trim_start_ws(line.subrange(5, line.len() as int))))
        } else if line.len() == 0 && cur.len() > 0 {
            (blocks.push(join_lines(cur)), seq![])
        } else {
            (blocks, cur)
        }
    }
}

/// The data blocks of an event stream, and the data of an unfinished last block.
#[derive(Clone, Debug)]
pub struct SseFrames {
    pub blocks: Vec<String>,
    pub trailing: Option<String>,
}

/// What the event stream `text` holds: its finished data blocks, and the joined
/// data lines left open at its end, if any.
pub open spec fn sse_frames_spec(text: Seq<char>) -> (Seq<Seq<char>>, Option<Seq<char>>) {
    let (blocks, cur) = sse_state(lines_spec(text));
    (blocks, if cur.len() > 0 {
        Some(join_lines(cur))
    } else {
        None
    })
}

fn join_with_newline(ls: &Vec<Vec<char>>) -> (r: String)
    ensures
        r@ == join_lines(ls@.map_values(|v: Vec<char>| v@)),
{
    let ghost lv = ls@.map_values(|v: Vec<char>| v@);
    let mut out = String::new();
    let mut i: usize = 0;
    while i < ls.len()
        invariant
            i <= ls.len(),
            lv == ls@.map_values(|v: Vec<char>| v@),
            out@ == join_lines(lv.take(i as int)),
        decreases ls.len() - i,
    {
        assert(lv.take(i + 1).drop_last() == lv.take(i as int));
        assert(lv.take(i + 1).last() == ls@[i as int]@);
        if i > 0 {
            push_char(&mut out, '\n');
        }
        let ghost head = out@;
        let mut k: usize = 0;
        while k < ls[i].len()
            invariant
                i < ls.len(),
                k <= ls@[i as int]@.len(),
                out@ == head + ls@[i as int]@.take(k as int),
            decreases ls@[i as int]@.len() - k,
        {
            push_char(&mut out, ls[i][k]);
            k = k + 1;
            assert(ls@[i as int]@.take(k as int) == ls@[i as int]@.take(k - 1).push(ls@[i as int]@[k - 1]));
        }
        assert(ls@[i as int]@.take(ls@[i as int]@.len() as int) == ls@[i as int]@);
        proof {
            if i == 0 {
                assert(lv.take(1).len() == 1);
                assert(join_lines(lv.take(0)) == Seq::<char>::empty());
                assert(head == Seq::<char>::empty());
            }
        }
        i = i + 1;
    }
    assert(lv.take(ls.len() as int) == lv);
    out
}

fn starts_with_data(line: &Vec<char>) -> (r: bool)
    ensures
        r == starts_with_seq(line@, "data:"@),
{
    let p = chars_of("data:");
    crate::text::chars_occur_at(line, &p, 0)
}

/// Splits an event stream into its data blocks.
pub fn sse_frames(text: &str) -> (r: SseFrames)
    ensures
        r.blocks@.map_values(|s: String| s@) == sse_frames_spec(text@).0,
        crate::text::opt_view(r.trailing) == sse_frames_spec(text@).1,
{
    let cs = chars_of(text);
    let pieces = split_chars(&cs, '\n');
    let ghost pv = pieces@.map_values(|v: Vec<char>| v@);
    proof {
        crate::text::lemma_split_on_nonempty(cs@, '\n');
    }
    let body = if pieces[pieces.len() - 1].len() == 0 {
        pieces.len() - 1
    } else {
        pieces.len()
    };
    let ghost lines = lines_spec(text@);
    assert(lines.len() == body);
    let mut blocks: Vec<String> = Vec::new();
    let mut cur: Vec<Vec<char>> = Vec::new();
    let mut i: usize = 0;
    while i < body
        invariant
            i <= body <= pieces.len(),
            pv == pieces@.map_values(|v: Vec<char>| v@),
            pv == split_on(text@, '\n'),
            lines == lines_spec(text@),
            lines.len() == body,
            blocks@.map_values(|s: String| s@) == sse_state(lines.take(i as int)).0,
            cur@.map_values(|v: Vec<char>| v@) == sse_state(lines.take(i as int)).1,
        decreases body - i,
    {
        let p = &pieces[i];
        let line: Vec<char> = if i + 1 < pieces.len() && p.len() > 0 && p[p.len() - 1] == '\r' {
            crate::text::sub_chars(p, 0, p.len() - 1)
        } else {
            crate::text::sub_chars(p, 0, p.len())
        };
        assert(p@.subrange(0, p@.len() as int) == p@);
        assert(line@ == lines[i as int]);
        assert(lines.take(i + 1).drop_last() == lines.take(i as int));
        assert(lines.take(i + 1).last() == lines[i as int]);
        if starts_with_data(&line) {
            proof {
                reveal_strlit("data:");
            }
            let (a, b) = trim_start_bounds(&line, 5);
            let rest = crate::text::sub_chars(&line, a, b);
            let ghost before = cur@;
            cur.push(rest);
            assert(cur@.map_values(|v: Vec<char>| v@) =~= before.map_values(|v: Vec<char>| v@).push(
                rest@,
            ));
        } else if line.len() == 0 && cur.len() > 0 {
            let joined = join_with_newline(&cur);
            let ghost before = blocks@;
            blocks.push(joined);
            assert(blocks@.map_values(|s: String| s@) =~= before.map_values(|s: String| s@).push(
                joined@,
            ));
            cur = Vec::new();
            assert(cur@.map_values(|v: Vec<char>| v@) =~= Seq::<Seq<char>>::empty());
        }
        i = i + 1;
    }
    assert(lines.take(body as int) == lines);
    let trailing = if cur.len() > 0 {
        Some(join_with_newline(&cur))
    } else {
        None
    };
    SseFrames { blocks, trailing }
}

/// Bounds of `line[from..]` without leading white space.
fn trim_start_bounds(line: &Vec<char>, from: usize) -> (r: (usize, usize))
    requires
        from <= line.len(),
    ensures
        r.0 <= r.1 == line.len(),
        line@.subrange(r.0 as int, r.1 as int) == trim_start_ws(line@.subrange(from as int, line.len() as int)),
{
    let n = line.len();
    let mut a = from;
    while a < n && crate::text::is_white_space_char(line[a])
        invariant
            from <= a <= n == line.len(),
            trim_start_ws(line@.subrange(from as int, n as int)) == trim_start_ws(line@.subrange(a as int, n as int)),
        decreases n - a,
    {
        assert(line@.subrange(a as int, n as int).drop_first() == line@.subrange(a + 1, n as int));
        a = a + 1;
    }
    (a, n)
}

/// Why a JSON-RPC call over the event stream produced no result.
#[derive(Clone, Debug)]
pub enum RpcFailure {
    /// A data block carried an `error` member; it holds the block's text.
    ServerError(String),
    /// No data block carried a `result`.
    NoResult,
}

/// The call's outcome given each finished block parsed as JSON (`None` where it is
/// not JSON) and the parsed unfinished block: the first finished JSON block with an
/// `error` fails the call and one with a `result` ends it; the unfinished block can
/// only supply a `result`.
pub open spec fn rpc_outcome_spec(
    blocks: Seq<Option<JsonValue>>,
    texts: Seq<Seq<char>>,
    trailing: Option<JsonValue>,
) -> Result<JsonValue, Option<Seq<char>>>
    decreases blocks.len(),
{
    if blocks.len() == 0 {
        match trailing {
            Some(v) => match value_get(v, "result"@) {
                Some(r) => Ok(r),
                None => Err(None),
            },
            None => Err(None),
        }
    } else {
        match blocks[0] {
            Some(v) => if value_get(v, "error"@) is Some {
                Err(Some(texts[0]))
            } else {
                match value_get(v, "result"@) {
                    Some(r) => Ok(r),
                    None => rpc_outcome_spec(blocks.drop_first(), texts.drop_first(), trailing),
                }
            },
            None => rpc_outcome_spec(blocks.drop_first(), texts.drop_first(), trailing),
        }
    }
}

/// Chooses the call's result among the parsed data blocks (see `rpc_outcome_spec`).
pub fn select_rpc_result<'a>(
    blocks: &'a Vec<Option<JsonValue>>,
    texts: &Vec<String>,
    trailing: &'a Option<JsonValue>,
) -> (r: Result<&'a JsonValue, RpcFailure>)
    requires
        blocks.len() == texts.len(),
    ensures
        match r {
            Ok(v) => rpc_outcome_spec(blocks@, texts@.map_values(|s: String| s@), *trailing)
                == Ok::<JsonValue, Option<Seq<char>>>(*v),
            Err(RpcFailure::ServerError(t)) => rpc_outcome_spec(
                blocks@,
                texts@.map_values(|s: String| s@),
                *trailing,
            ) == Err::<JsonValue, Option<Seq<char>>>(Some(t@)),
            Err(RpcFailure::NoResult) => rpc_outcome_spec(
                blocks@,
                texts@.map_values(|s: String| s@),
                *trailing,
            ) == Err::<JsonValue, Option<Seq<char>>>(None),
        },
{
    let ghost tv = texts@.map_values(|s: String| s@);
    let mut i: usize = 0;
    assert(blocks@.subrange(0, blocks@.len() as int) == blocks@);
    assert(tv.subrange(0, tv.len() as int) == tv);
    while i < blocks.len()
        invariant
            i <= blocks.len() == texts.len(),
            tv == texts@.map_values(|s: String| s@),
            rpc_outcome_spec(blocks@, tv, *trailing) == rpc_outcome_spec(
                blocks@.subrange(i as int, blocks@.len() as int),
                tv.subrange(i as int, tv.len() as int),
                *trailing,
            ),
        decreases blocks.len() - i,
    {
        let ghost bs = blocks@.subrange(i as int, blocks@.len() as int);
        let ghost ts = tv.subrange(i as int, tv.len() as int);
        assert(bs[0] == blocks@[i as int]);
        assert(ts[0] == texts@[i as int]@);
        assert(bs.drop_first() == blocks@.subrange(i + 1, blocks@.len() as int));
        assert(ts.drop_first() == tv.subrange(i + 1, tv.len() as int));
        match &blocks[i] {
            Some(v) => {
                if v.get("error").is_some() {
                    return Err(RpcFailure::ServerError(crate::text::to_owned_string(texts[i].as_str())));
                }
                match v.get("result") {
                    Some(r) => {
                        return Ok(r);
                    },
                    None => {},
                }
            },
            None => {},
        }
        i = i + 1;
    }
    match trailing {
        Some(v) => match v.get("result") {
            Some(r) => Ok(r),
            None => Err(RpcFailure::NoResult),
        },
        None => Err(RpcFailure::NoResult),
    }
}

} // verus!
