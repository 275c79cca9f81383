//! Composition of the processing chain: pre-filter, parse, post-filter.
//!
//! A source element is either a raw line or an opaque read-failure message.
//! Lines failing the pre-stage pattern are dropped; survivors are parsed;
//! records failing the post-stage predicates are dropped. Failures of
//! either kind pass both stages unchanged and are yielded interleaved with
//! successes, in input order, so a consumer may handle them individually.

use vstd::prelude::*;

verus! {

use crate::filter::{Filter, pre_filter, post_filter, spec_pre_pass, spec_post_pass};
use crate::parse::{
    parse_line,
    parse_result_view,
    spec_parse_line,
    Pageviews,
    PageviewsView,
    ParseError,
    ParseErrorView,
};
use crate::store::{
    chunks_from_structs,
    ok_rows,
    spec_batch_size,
    spec_chunk_of,
    Chunk,
    EncodeError,
    MAX_DICT_VALUES,
};

/// What one surviving source element parses to: a read failure passes
/// through as a `ReadError`, a line goes through the line parser.
pub open spec fn spec_line_result(line: Result<String, String>) -> Result<
    PageviewsView,
    ParseErrorView,
> {
    match line {
        Ok(l) => spec_parse_line(l@),
        Err(e) => Err(ParseErrorView::ReadError(e@)),
    }
}

/// The post-stage verdict on an abstract parse result: failures pass.
pub open spec fn spec_post_pass_view(f: Filter, r: Result<PageviewsView, ParseErrorView>) -> bool {
    match r {
        Ok(pv) => spec_post_pass(f, pv),
        Err(_) => true,
    }
}

/// The whole chain over a finite source: for each element in order, keep
/// it when it passes the pre-stage, parse it, and keep the result when it
/// passes the post-stage.
pub open spec fn spec_pipeline(lines: Seq<Result<String, String>>, f: Filter) -> Seq<
    Result<PageviewsView, ParseErrorView>,
>
    decreases lines.len(),
{
    if lines.len() == 0 {
        Seq::empty()
    } else {
        let rest = spec_pipeline(lines.drop_first(), f);
        if !spec_pre_pass(f, lines[0]) {
            rest
        } else {
            let v = spec_line_result(lines[0]);
            if spec_post_pass_view(f, v) {
                seq![v] + rest
            } else {
                rest
            }
        }
    }
}

proof fn lemma_pipeline_append(
    a: Seq<Result<String, String>>,
    b: Seq<Result<String, String>>,
    f: Filter,
)
    ensures
        spec_pipeline(a + b, f) == spec_pipeline(a, f) + spec_pipeline(b, f),
    decreases a.len(),
{
    if a.len() == 0 {
        assert(a + b =~= b);
        assert(spec_pipeline(a, f) + spec_pipeline(b, f) =~= spec_pipeline(b, f));
    } else {
        lemma_pipeline_append(a.drop_first(), b, f);
        assert((a + b).drop_first() =~= a.drop_first() + b);
        assert((a + b)[0] == a[0]);
        if spec_pre_pass(f, a[0]) && spec_post_pass_view(f, spec_line_result(a[0])) {
            let v = spec_line_result(a[0]);
            assert(seq![v] + (spec_pipeline(a.drop_first(), f) + spec_pipeline(b, f)) =~= (seq![v]
                + spec_pipeline(a.drop_first(), f)) + spec_pipeline(b, f));
        }
    }
}

/// Extending the processed prefix by one element appends at most that
/// element's outcome.
proof fn lemma_pipeline_step(lines: Seq<Result<String, String>>, f: Filter, i: int)
    requires
        0 <= i < lines.len(),
    ensures
        spec_pipeline(lines.take(i + 1), f) == if spec_pre_pass(f, lines[i])
            && spec_post_pass_view(f, spec_line_result(lines[i])) {
            spec_pipeline(lines.take(i), f).push(spec_line_result(lines[i]))
        } else {
            spec_pipeline(lines.take(i), f)
        },
{
    let single = seq![lines[i]];
    assert(lines.take(i + 1) =~= lines.take(i) + single);
    lemma_pipeline_append(lines.take(i), single, f);
    assert(single.len() == 1 && single[0] == lines[i]);
    assert(single.drop_first() =~= Seq::<Result<String, String>>::empty());
    assert(spec_pipeline(Seq::<Result<String, String>>::empty(), f) == Seq::<
        Result<PageviewsView, ParseErrorView>,
    >::empty());
    if spec_pre_pass(f, lines[i]) && spec_post_pass_view(f, spec_line_result(lines[i])) {
        let v = spec_line_result(lines[i]);
        assert(spec_pipeline(single, f) == seq![v] + spec_pipeline(single.drop_first(), f));
        assert(spec_pipeline(single, f) =~= seq![v]);
        assert(spec_pipeline(lines.take(i), f) + seq![v] =~= spec_pipeline(
            lines.take(i),
            f,
        ).push(v));
    } else {
        assert(spec_pipeline(single, f) =~= Seq::<Result<PageviewsView, ParseErrorView>>::empty());
        assert(spec_pipeline(lines.take(i), f) + spec_pipeline(single, f) =~= spec_pipeline(
            lines.take(i),
            f,
        ));
    }
}

/// Runs the chain over a finite batch of source elements: pre-filter each
/// line, parse the survivors, post-filter the parse results. The output
/// is exactly the sequence the abstract pipeline describes, in input
/// order, failures interleaved with successes.
pub fn process_lines(lines: &Vec<Result<String, String>>, filter: &Filter) -> (out: Vec<
    Result<Pageviews, ParseError>,
>)
    ensures
        out@.map_values(|r: Result<Pageviews, ParseError>| parse_result_view(r)) == spec_pipeline(
            lines@,
            *filter,
        ),
{
    let mut out: Vec<Result<Pageviews, ParseError>> = Vec::new();
    let mut i: usize = 0;
    proof {
        assert(lines@.take(0) =~= Seq::<Result<String, String>>::empty());
        assert(out@.map_values(|r: Result<Pageviews, ParseError>| parse_result_view(r)) =~= Seq::<
            Result<PageviewsView, ParseErrorView>,
        >::empty());
    }
    while i < lines.len()
        invariant
            i <= lines@.len(),
            out@.map_values(|r: Result<Pageviews, ParseError>| parse_result_view(r))
                == spec_pipeline(lines@.take(i as int), *filter),
        decreases lines@.len() - i,
    {
        let ghost prev = out@;
        proof {
            lemma_pipeline_step(lines@, *filter, i as int);
        }
        if pre_filter(filter, &lines[i]) {
            let parsed: Result<Pageviews, ParseError> = match &lines[i] {
                Ok(l) => parse_line(l.clone()),
                Err(e) => Err(ParseError::ReadError(e.clone())),
            };
            proof {
                assert(parse_result_view(parsed) == spec_line_result(lines@[i as int]));
            }
            if post_filter(filter, &parsed) {
                out.push(parsed);
                proof {
                    assert(out@.map_values(
                        |r: Result<Pageviews, ParseError>| parse_result_view(r),
                    ) =~= prev.map_values(
                        |r: Result<Pageviews, ParseError>| parse_result_view(r),
                    ).push(spec_line_result(lines@[i as int])));
                }
            }
        }
        i += 1;
    }
    proof {
        assert(lines@.take(lines@.len() as int) =~= lines@);
    }
    out
}

/// The successful records among abstract pipeline outcomes, in order.
pub open spec fn ok_views(s: Seq<Result<PageviewsView, ParseErrorView>>) -> Seq<PageviewsView>
    decreases s.len(),
{
    if s.len() == 0 {
        Seq::empty()
    } else {
        match s[0] {
            Ok(pv) => seq![pv] + ok_views(s.drop_first()),
            Err(_) => ok_views(s.drop_first()),
        }
    }
}

/// Dropping failures commutes with taking views: the successful rows of a
/// batch of parse results are the successes of its abstract image.
proof fn lemma_ok_rows_as_views(s: Seq<Result<Pageviews, ParseError>>)
    ensures
        ok_rows(s) == ok_views(
            s.map_values(|r: Result<Pageviews, ParseError>| parse_result_view(r)),
        ),
    decreases s.len(),
{
    let mapped = s.map_values(|r: Result<Pageviews, ParseError>| parse_result_view(r));
    if s.len() == 0 {
        assert(ok_rows(s) =~= ok_views(mapped));
    } else {
        lemma_ok_rows_as_views(s.drop_first());
        assert(mapped.drop_first() =~= s.drop_first().map_values(
            |r: Result<Pageviews, ParseError>| parse_result_view(r),
        ));
        assert(mapped[0] == parse_result_view(s[0]));
    }
}

/// Runs the whole chain over a finite batch of source elements and groups
/// the surviving records into bounded columnar chunks: exactly the chunked
/// encoding of the abstract pipeline's successful outcomes.
pub fn encode_lines(
    lines: &Vec<Result<String, String>>,
    filter: &Filter,
    batch_size: Option<usize>,
) -> (r: Result<Vec<Chunk>, EncodeError>)
    requires
        batch_size matches Some(b) ==> b >= 1,
    ensures
        ({
            let b = spec_batch_size(batch_size);
            let rows = ok_views(spec_pipeline(lines@, *filter));
            &&& (b <= MAX_DICT_VALUES ==> r is Ok)
            &&& (r matches Ok(chunks) ==> {
                &&& chunks@.len() == (rows.len() + b - 1) / b
                &&& forall|k: int| 0 <= k < chunks@.len() ==> (#[trigger] chunks@[k]).wf()
                &&& forall|k: int|
                    0 <= k < chunks@.len() ==> (#[trigger] chunks@[k]).content() == spec_chunk_of(
                        rows,
                        b,
                        k,
                    )
            })
        }),
{
    let records = process_lines(lines, filter);
    proof {
        lemma_ok_rows_as_views(records@);
    }
    chunks_from_structs(&records, batch_size)
}

} // verus!
