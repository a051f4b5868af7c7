//! What holds of the small questions on the side: what is asked, and what is shown of
//! the answers.

use crate::json::{field_of, items_of, text_of, Json, JsonView};
use crate::llm::micro::{task_views, MicroOutcome, MicroTask};
use crate::plugins::microtask::{
    ambient_parts, ambient_status, ambient_tasks, answer_tree, first_value, first_value_string,
    pipeline_first, pipeline_input, pipeline_report, pipeline_status, pipeline_tasks, plain_texts,
    report_line, report_spec, CLASSIFY_SYSTEM, SAMPLE_INPUT, SUMMARY_SYSTEM, TAGS_SYSTEM,
    TITLE_SYSTEM,
};
use crate::text::laws::{joined_texts_stand, standing_is_passed_on, what_is_between_stands};
use crate::text::number::decimal_spec;
use crate::text::search::{contains_spec, occurs_at};
use crate::text::{join_spec, pad_right_spec, texts};
use vstd::prelude::*;
use vstd::string::*;

verus! {

/// After every answer two questions are asked: what the user wanted, of what they said,
/// and what the answer is about, of the answer.
pub proof fn both_sides_are_asked_about(user_text: &str, reply: &str, r: Vec<MicroTask>)
    requires
        call_ensures(ambient_tasks, (user_text, reply), r),
    ensures
        r@.len() == 2,
        r@[0].name@ == "classify"@ && r@[0].system@ == CLASSIFY_SYSTEM@ && r@[0].input@
            == user_text@,
        r@[1].name@ == "tags"@ && r@[1].system@ == TAGS_SYSTEM@ && r@[1].input@ == reply@,
{
    let v = task_views(r@);
    assert(v.len() == 2);
    assert(v.len() == r@.len());
    assert(v[0] == r@[0]@);
    assert(v[1] == r@[1]@);
}

/// The chain works on what is given, or on a sample where nothing is; each of its
/// questions is asked about all of it.
pub proof fn the_chain_asks_about_its_input(
    rest: &str,
    input: &str,
    i: String,
    status: String,
    first: MicroTask,
    r: Vec<MicroTask>,
)
    requires
        call_ensures(pipeline_input, (rest,), i),
        call_ensures(pipeline_status, (input,), status),
        call_ensures(pipeline_first, (input,), first),
        call_ensures(pipeline_tasks, (input,), r),
    ensures
        rest@.len() > 0 ==> i@ == rest@,
        rest@.len() == 0 ==> i@ == SAMPLE_INPUT@,
        input@.is_suffix_of(status@),
        first.name@ == "classify"@ && first.system@ == CLASSIFY_SYSTEM@ && first.input@ == input@,
        r@.len() == 3,
        r@[0].name@ == "title"@ && r@[0].system@ == TITLE_SYSTEM@ && r@[0].input@ == input@,
        r@[1].name@ == "tags"@ && r@[1].system@ == TAGS_SYSTEM@ && r@[1].input@ == input@,
        r@[2].name@ == "summary"@ && r@[2].system@ == SUMMARY_SYSTEM@ && r@[2].input@ == input@,
{
    let m = status@;
    assert(input@ =~= m.subrange(m.len() - input@.len(), m.len() as int));
    let v = task_views(r@);
    assert(v.len() == 3);
    assert(v.len() == r@.len());
    assert(v[0] == r@[0]@);
    assert(v[1] == r@[1]@);
    assert(v[2] == r@[2]@);
}

proof fn texts_of_values(items: Seq<JsonView>, f: spec_fn(JsonView) -> Option<Seq<char>>)
    requires
        forall|j: JsonView| #[trigger] f(j) == text_of(j),
    ensures
        plain_texts(items) == items.filter_map(f),
    decreases items.len(),
{
    reveal(Seq::filter_map);
    if items.len() > 0 {
        texts_of_values(items.drop_last(), f);
        assert(f(items.last()) == text_of(items.last()));
        assert(plain_texts(items) =~= items.filter_map(f));
    }
}

/// A value is shown as what it says: a text as it is, a list as all its texts with
/// commas between, an object by its first value, and anything else as it is written.
pub proof fn values_are_shown(v: Json, r: String, items: Seq<JsonView>, fields: Seq<(Seq<char>, JsonView)>, s: Seq<char>)
    requires
        call_ensures(first_value_string, (&v,), r),
    ensures
        v@ == JsonView::Text(s) ==> r@ == s,
        v@ == JsonView::List(items) ==> r@ == join_spec(
            items.filter_map(
                |j: JsonView|
                    match j {
                        JsonView::Text(t) => Some(t),
                        _ => None::<Seq<char>>,
                    },
            ),
            ","@,
        ),
        v@ == JsonView::Object(fields) && fields.len() > 0 && fields[0].1 == JsonView::Text(s) ==> r@
            == s,
        v@ == JsonView::Object(fields) && fields.len() == 0 ==> r@ == "?"@,
        v@ == JsonView::Null ==> r@ == "null"@,
        v@ == JsonView::Bool(true) ==> r@ == "true"@,
        v@ == JsonView::Bool(false) ==> r@ == "false"@,
        v@ matches JsonView::Number(_, n) ==> r@ == n,
{
    let f = |j: JsonView|
        match j {
            JsonView::Text(t) => Some(t),
            _ => None::<Seq<char>>,
        };
    texts_of_values(items, f);
    reveal_with_fuel(first_value, 2);
}

/// The status line after an answer tells what the user wanted and all that the answer is
/// about, as far as it is known, and how long it took to find out.
pub proof fn the_status_tells_what_is_known(
    classify: Result<MicroOutcome, String>,
    tags: Result<MicroOutcome, String>,
    elapsed: &str,
    r: String,
    intent: Seq<char>,
    items: Seq<JsonView>,
    i: int,
)
    requires
        call_ensures(ambient_status, (&classify, &tags, elapsed), r),
    ensures
        contains_spec(r@, "("@ + elapsed@ + ")"@),
        classify is Ok && classify->Ok_0.json is Some && field_of(
            classify->Ok_0.json->0@,
            "intent"@,
        ) == JsonView::Text(intent) ==> contains_spec(r@, "意图="@ + intent),
        tags is Ok && tags->Ok_0.json is Some && field_of(tags->Ok_0.json->0@, "tags"@)
            == JsonView::List(items) && 0 <= i < items.len() && items[i] is Text ==> contains_spec(
            r@,
            items[i]->Text_0,
        ),
        classify is Err && tags is Err ==> r@ == "[micro] 环境微调用失败 ("@ + elapsed@ + ")"@,
{
    let a = answer_tree(classify);
    let b = answer_tree(tags);
    let parts = ambient_parts(a, b);
    time_stands(parts, elapsed@, r@);
    if classify is Ok && classify->Ok_0.json is Some && field_of(
        classify->Ok_0.json->0@,
        "intent"@,
    ) == JsonView::Text(intent) {
        assert(parts[0] == "意图="@ + intent);
        part_stands(parts, elapsed@, r@, 0);
    }
    if tags is Ok && tags->Ok_0.json is Some && field_of(tags->Ok_0.json->0@, "tags"@)
        == JsonView::List(items) && 0 <= i < items.len() && items[i] is Text {
        word_stands(items, i);
        part_stands(parts, elapsed@, r@, parts.len() - 1);
        standing_is_passed_on(r@, parts.last(), items[i]->Text_0);
    }
    if classify is Err && tags is Err {
        assert(items_of(JsonView::Null).len() == 0);
        assert(parts.len() == 0);
    }
}

proof fn time_stands(parts: Seq<Seq<char>>, elapsed: Seq<char>, r: Seq<char>)
    requires
        r == if parts.len() == 0 {
            "[micro] 环境微调用失败 ("@ + elapsed + ")"@
        } else {
            "[micro] "@ + join_spec(parts, " | "@) + " ("@ + elapsed + ")"@
        },
    ensures
        contains_spec(r, "("@ + elapsed + ")"@),
{
    reveal_strlit("(");
    reveal_strlit(" (");
    reveal_strlit("[micro] 环境微调用失败 (");
    let time = "("@ + elapsed + ")"@;
    let k = r.len() - time.len();
    assert(r.subrange(k, k + time.len()) =~= time);
    assert(occurs_at(r, time, k));
}

proof fn part_stands(parts: Seq<Seq<char>>, elapsed: Seq<char>, r: Seq<char>, p: int)
    requires
        0 <= p < parts.len(),
        r == "[micro] "@ + join_spec(parts, " | "@) + " ("@ + elapsed + ")"@,
    ensures
        contains_spec(r, parts[p]),
{
    let joined = join_spec(parts, " | "@);
    let at = joined_texts_stand(parts, " | "@, p);
    assert(occurs_at(joined, parts[p], at));
    let tail = " ("@ + elapsed + ")"@;
    assert(r =~= "[micro] "@ + joined + tail);
    what_is_between_stands("[micro] "@, joined, tail);
    standing_is_passed_on(r, joined, parts[p]);
}

proof fn word_stands(items: Seq<JsonView>, i: int)
    requires
        0 <= i < items.len(),
        items[i] is Text,
    ensures
        plain_texts(items).len() > 0,
        contains_spec("关键词="@ + join_spec(plain_texts(items), ","@), items[i]->Text_0),
{
    let words = plain_texts(items);
    let p = text_stands(items, i);
    let at = joined_texts_stand(words, ","@, p);
    let w = join_spec(words, ","@);
    assert(occurs_at(w, items[i]->Text_0, at));
    let none = Seq::<char>::empty();
    what_is_between_stands("关键词="@, w, none);
    assert("关键词="@ + w + none =~= "关键词="@ + w);
    standing_is_passed_on("关键词="@ + w, w, items[i]->Text_0);
}

proof fn text_stands(items: Seq<JsonView>, i: int) -> (p: int)
    requires
        0 <= i < items.len(),
        items[i] is Text,
    ensures
        0 <= p < plain_texts(items).len(),
        plain_texts(items)[p] == items[i]->Text_0,
    decreases items.len(),
{
    let d = items.drop_last();
    if i == items.len() - 1 {
        plain_texts(items).len() - 1
    } else {
        assert(d[i] == items[i]);
        text_stands(d, i)
    }
}

/// The report of the chain has a line for what the user wanted, one for every question,
/// with its name, its answer and its time or why there is none, and one for the times.
pub proof fn every_answer_is_reported(
    classify: Result<MicroOutcome, String>,
    outs: Vec<Result<MicroOutcome, String>>,
    first: &str,
    second: &str,
    total: &str,
    r: Vec<String>,
    intent: Seq<char>,
    i: int,
    shown: String,
)
    requires
        call_ensures(pipeline_report, (&classify, &outs, first, second, total), r),
    ensures
        r@.len() == outs@.len() + 2,
        classify is Ok && classify->Ok_0.json is Some && field_of(
            classify->Ok_0.json->0@,
            "intent"@,
        ) == JsonView::Text(intent) ==> contains_spec(r@[0]@, intent),
        contains_spec(r@[0]@, first@),
        0 <= i < outs@.len() && outs@[i] is Err ==> outs@[i]->Err_0@.is_suffix_of(r@[i + 1]@),
        0 <= i < outs@.len() && outs@[i] is Ok && outs@[i]->Ok_0.json is Some && call_ensures(
            first_value_string,
            (&outs@[i]->Ok_0.json->0,),
            shown,
        ) ==> {
            let o = outs@[i]->Ok_0;
            r@[i + 1]@ == "[micro] "@ + pad_right_spec(o.task@, 8) + " "@ + shown@ + " ("@
                + decimal_spec(o.latency_ms as nat) + ")"@
        },
        total@.is_suffix_of(r@.last()@),
        contains_spec(r@.last()@, second@),
{
    let t = report_spec(answer_tree(classify), outs@, first@, second@, total@);
    let v = texts(r@);
    assert(v == t);
    assert(v.len() == r@.len());
    assert(v[0] == r@[0]@);
    let n = outs@.len() as int;
    assert(v[n + 1] == r@[n + 1]@);
    let name = match text_of(field_of(answer_tree(classify), "intent"@)) {
        Some(s) => s,
        None => "解析失败"@,
    };
    let h = r@[0]@;
    let p = "[micro] 意图: "@.len() as int;
    assert(h.subrange(p, p + name.len()) =~= name);
    assert(occurs_at(h, name, p));
    let q = p + name.len() + " (阶段1 "@.len();
    assert(h.subrange(q, q + first@.len()) =~= first@);
    assert(occurs_at(h, first@, q));
    if 0 <= i < n {
        assert(v[i + 1] == r@[i + 1]@);
        assert(t[i + 1] == report_line(outs@[i]));
        if outs@[i] is Err {
            let e = outs@[i]->Err_0@;
            let m = r@[i + 1]@;
            assert(e =~= m.subrange(m.len() - e.len(), m.len() as int));
        }
    }
    let z = r@.last()@;
    assert(total@ =~= z.subrange(z.len() - total@.len(), z.len() as int));
    let k = ("[micro] 阶段1="@ + first@ + " 阶段2(3 并行)="@).len() as int;
    assert(z.subrange(k, k + second@.len()) =~= second@);
    assert(occurs_at(z, second@, k));
}

}  // verus!
