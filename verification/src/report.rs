//! The report of a benchmark run. The figures come as text; where each of them stands is decided
//! here.

use vstd::prelude::*;
use vstd::string::*;

use crate::text::{decimal, decimal_text};

verus! {

/// One clip.
pub struct Row {
    pub name: String,
    /// Seconds.
    pub dur: String,
    /// Milliseconds of the recognition, of the routing and of both.
    pub asr_ms: String,
    pub router_ms: String,
    pub total_ms: String,
    /// How much faster than the audio.
    pub speed: String,
    pub raw: String,
    pub intent: String,
    pub calibrated: String,
    pub reply: String,
}

/// The figures over all clips.
pub struct Summary {
    /// Seconds since the epoch.
    pub epoch: u64,
    pub asr_avg: String,
    pub router_avg: String,
    pub total_avg: String,
    pub speed: String,
    pub rtf: String,
    /// The pause that ends a sentence.
    pub endpoint_ms: String,
    pub perceived: String,
}

/// What stands before the clips.
pub open spec fn head_text(s: Summary, clips: nat) -> Seq<char> {
    "# Stage1+2 语音识别基准报告\n\n- 生成时间 (unix): `"@ + decimal(s.epoch as nat)
        + "`\n- Stage1 = SenseVoice int8 (sherpa-onnx) · Stage2 = Qwen3-1.7B Q8 整流+意图路由 (GPU sm_120)\n- 用例: "@
        + decimal(clips)
        + " 条\n\n## 延迟汇总\n\n| 指标 | 值 |\n|---|---|\n| Stage1 ASR 平均 | "@ + s.asr_avg@
        + " ms |\n| Stage2 路由 平均 | "@ + s.router_avg@ + " ms |\n| 合计计算 平均 | "@
        + s.total_avg@ + " ms |\n| ASR 实时倍数 | "@ + s.speed@ + "× (RTF "@ + s.rtf@
        + ") |\n| 端到端感知 (含 VAD 断句 "@ + s.endpoint_ms@ + "ms) | ~"@ + s.perceived@
        + " ms/句 |\n\n## 逐条耗时\n\n| 素材 | 时长(s) | Stage1 ASR(ms) | Stage2 路由(ms) | 合计(ms) | ×实时 | 意图 |\n|---|---:|---:|---:|---:|---:|---|\n"@
}

/// The line of a clip in the table of times.
pub open spec fn time_line(r: Row) -> Seq<char> {
    "| "@ + r.name@ + " | "@ + r.dur@ + " | "@ + r.asr_ms@ + " | "@ + r.router_ms@ + " | "@
        + r.total_ms@ + " | "@ + r.speed@ + "× | "@ + r.intent@ + " |\n"@
}

/// What was recognised in a clip.
pub open spec fn result_text(r: Row) -> Seq<char> {
    "### "@ + r.name@ + "  ("@ + r.dur@ + "s)\n\n- **Stage1 原文**: "@ + r.raw@
        + "\n- **Stage2 整流** `["@ + r.intent@ + "]`: "@ + r.calibrated@ + "\n- **秘书回应**: "@
        + r.reply@ + "\n\n"@
}

/// The lines of all clips.
pub open spec fn time_lines(rows: Seq<Row>) -> Seq<char>
    decreases rows.len(),
{
    if rows.len() == 0 {
        Seq::empty()
    } else {
        time_lines(rows.drop_last()) + time_line(rows.last())
    }
}

/// What was recognised in all clips.
pub open spec fn result_texts(rows: Seq<Row>) -> Seq<char>
    decreases rows.len(),
{
    if rows.len() == 0 {
        Seq::empty()
    } else {
        result_texts(rows.drop_last()) + result_text(rows.last())
    }
}

/// The report.
pub open spec fn report_text(s: Summary, rows: Seq<Row>) -> Seq<char> {
    head_text(s, rows.len()) + time_lines(rows) + "\n## 识别结果\n\n"@ + result_texts(rows)
}

fn write_head(s: &Summary, clips: usize) -> (r: String)
    ensures
        r@ == head_text(*s, clips as nat),
{
    let mut t = "# Stage1+2 语音识别基准报告\n\n- 生成时间 (unix): `".to_owned();
    t.append(decimal_text(s.epoch).as_str());
    t.append(
        "`\n- Stage1 = SenseVoice int8 (sherpa-onnx) · Stage2 = Qwen3-1.7B Q8 整流+意图路由 (GPU sm_120)\n- 用例: ",
    );
    t.append(decimal_text(clips as u64).as_str());
    t.append(" 条\n\n## 延迟汇总\n\n| 指标 | 值 |\n|---|---|\n| Stage1 ASR 平均 | ");
    t.append(s.asr_avg.as_str());
    t.append(" ms |\n| Stage2 路由 平均 | ");
    t.append(s.router_avg.as_str());
    t.append(" ms |\n| 合计计算 平均 | ");
    t.append(s.total_avg.as_str());
    t.append(" ms |\n| ASR 实时倍数 | ");
    t.append(s.speed.as_str());
    t.append("× (RTF ");
    t.append(s.rtf.as_str());
    t.append(") |\n| 端到端感知 (含 VAD 断句 ");
    t.append(s.endpoint_ms.as_str());
    t.append("ms) | ~");
    t.append(s.perceived.as_str());
    t.append(
        " ms/句 |\n\n## 逐条耗时\n\n| 素材 | 时长(s) | Stage1 ASR(ms) | Stage2 路由(ms) | 合计(ms) | ×实时 | 意图 |\n|---|---:|---:|---:|---:|---:|---|\n",
    );
    t
}

fn write_time_line(r: &Row) -> (t: String)
    ensures
        t@ == time_line(*r),
{
    let mut t = "| ".to_owned();
    t.append(r.name.as_str());
    t.append(" | ");
    t.append(r.dur.as_str());
    t.append(" | ");
    t.append(r.asr_ms.as_str());
    t.append(" | ");
    t.append(r.router_ms.as_str());
    t.append(" | ");
    t.append(r.total_ms.as_str());
    t.append(" | ");
    t.append(r.speed.as_str());
    t.append("× | ");
    t.append(r.intent.as_str());
    t.append(" |\n");
    t
}

fn write_result(r: &Row) -> (t: String)
    ensures
        t@ == result_text(*r),
{
    let mut t = "### ".to_owned();
    t.append(r.name.as_str());
    t.append("  (");
    t.append(r.dur.as_str());
    t.append("s)\n\n- **Stage1 原文**: ");
    t.append(r.raw.as_str());
    t.append("\n- **Stage2 整流** `[");
    t.append(r.intent.as_str());
    t.append("]`: ");
    t.append(r.calibrated.as_str());
    t.append("\n- **秘书回应**: ");
    t.append(r.reply.as_str());
    t.append("\n\n");
    t
}

/// The report in Markdown: the figures over all clips, a table of times, what was recognised.
pub fn build_report(summary: &Summary, rows: &Vec<Row>) -> (r: String)
    ensures
        r@ == report_text(*summary, rows@),
{
    let mut times = String::new();
    let mut results = String::new();
    let mut i: usize = 0;
    while i < rows.len()
        invariant
            0 <= i <= rows.len(),
            times@ == time_lines(rows@.take(i as int)),
            results@ == result_texts(rows@.take(i as int)),
        decreases rows.len() - i,
    {
        proof {
            assert(rows@.take(i + 1).drop_last() =~= rows@.take(i as int));
        }
        times.append(write_time_line(&rows[i]).as_str());
        results.append(write_result(&rows[i]).as_str());
        i = i + 1;
    }
    proof {
        assert(rows@.take(rows@.len() as int) =~= rows@);
    }
    let mut out = write_head(summary, rows.len());
    out.append(times.as_str());
    out.append("\n## 识别结果\n\n");
    out.append(results.as_str());
    out
}

proof fn lemma_times_stand(rows: Seq<Row>, i: int) -> (around: (Seq<char>, Seq<char>))
    requires
        0 <= i < rows.len(),
    ensures
        time_lines(rows) == around.0 + time_line(rows[i]) + around.1,
        result_texts(rows) == result_texts(rows.take(i)) + result_text(rows[i]) + result_texts(
            rows.skip(i + 1),
        ),
        around.0 == time_lines(rows.take(i)),
        around.1 == time_lines(rows.skip(i + 1)),
    decreases rows.len(),
{
    let rest = rows.drop_last();
    if i == rows.len() - 1 {
        assert(rows.take(i) =~= rest);
        assert(rows.skip(i + 1) =~= Seq::<Row>::empty());
        assert(time_lines(Seq::<Row>::empty()) =~= Seq::<char>::empty());
        assert(result_texts(Seq::<Row>::empty()) =~= Seq::<char>::empty());
        assert(time_lines(rows) =~= time_lines(rest) + time_line(rows[i]) + Seq::<char>::empty());
        assert(result_texts(rows) =~= result_texts(rest) + result_text(rows[i]) + Seq::<
            char,
        >::empty());
    } else {
        let (b, a) = lemma_times_stand(rest, i);
        assert(rest[i] == rows[i]);
        assert(rest.take(i) =~= rows.take(i));
        assert(rows.skip(i + 1).drop_last() =~= rest.skip(i + 1));
        assert(rows.skip(i + 1).last() == rows.last());
        assert(time_lines(rows) =~= b + time_line(rows[i]) + (a + time_line(rows.last())));
        assert(result_texts(rows) =~= result_texts(rows.take(i)) + result_text(rows[i]) + (
        result_texts(rest.skip(i + 1)) + result_text(rows.last())));
    }
    (time_lines(rows.take(i)), time_lines(rows.skip(i + 1)))
}

/// Law: every clip has its line of times and its result in the report, in the order of the clips:
/// what was heard under 原文, what became of it under 整流 with its intent, and the reply.
pub proof fn law_every_clip_is_reported(s: Summary, rows: Seq<Row>, i: int)
    requires
        0 <= i < rows.len(),
    ensures
        report_text(s, rows) == head_text(s, rows.len()) + (time_lines(rows.take(i)) + ("| "@
            + rows[i].name@ + " | "@ + rows[i].dur@ + " | "@ + rows[i].asr_ms@ + " | "@
            + rows[i].router_ms@ + " | "@ + rows[i].total_ms@ + " | "@ + rows[i].speed@ + "× | "@
            + rows[i].intent@ + " |\n"@) + time_lines(rows.skip(i + 1))) + "\n## 识别结果\n\n"@ + (
        result_texts(rows.take(i)) + ("### "@ + rows[i].name@ + "  ("@ + rows[i].dur@
            + "s)\n\n- **Stage1 原文**: "@ + rows[i].raw@ + "\n- **Stage2 整流** `["@ + rows[i].intent@
            + "]`: "@ + rows[i].calibrated@ + "\n- **秘书回应**: "@ + rows[i].reply@ + "\n\n"@)
            + result_texts(rows.skip(i + 1))),
{
    let _ = lemma_times_stand(rows, i);
}

} // verus!
