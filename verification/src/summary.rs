//! The batch summary: the text that reports a batch and each of its assets.

use vstd::prelude::*;
use vstd::string::*;
use crate::batch_processor::{OutcomeView, VideoProcessingResult, count_successes, outcomes_view};
use crate::text::{decimal, fixed_text, push_decimal, push_fixed, push_quoted, quoted};

verus! {

/// The average time per asset as the summary shows it: the total divided
/// by the number of assets, rounded down to a millionth of a second, with
/// two decimals; `NaN` for a batch without assets.
pub open spec fn average_text(count: nat, total_time: int) -> Seq<char> {
    if count == 0 {
        "NaN"@
    } else {
        fixed_text((total_time / (count as int)) as nat, 2)
    }
}

/// The head of the summary: the counts and the times of the whole batch.
pub open spec fn summary_head(outcomes: Seq<OutcomeView>, total_time: int) -> Seq<char> {
    "=== Batch Processing Summary ===\n"@ + "Total videos processed: "@ + decimal(outcomes.len())
        + "\n"@ + "Successful: "@ + decimal(count_successes(outcomes)) + "\n"@ + "Failed: "@
        + decimal((outcomes.len() - count_successes(outcomes)) as nat) + "\n"@
        + "Total processing time: "@ + fixed_text(total_time as nat, 2) + "s\n"@
        + "Average time per video: "@ + average_text(outcomes.len(), total_time) + "s\n"@ + "\n"@
        + "=== Individual Results ===\n"@
}

/// What follows an asset's status and time: its counts for a success, its
/// error for a failure that has one, nothing for a failure without one.
pub open spec fn outcome_detail(outcome: OutcomeView) -> Seq<char> {
    if outcome.success {
        "  Frames processed: "@ + decimal(outcome.frame_count as nat) + "\n"@
            + "  Audio segments: "@ + decimal(outcome.audio_segments as nat) + "\n"@
    } else {
        match outcome.error_message {
            Some(error) => "  Error: "@ + error + "\n"@,
            None => Seq::empty(),
        }
    }
}

/// The lines of one asset, closed by an empty line.
pub open spec fn outcome_lines(outcome: OutcomeView) -> Seq<char> {
    "Video: "@ + quoted(outcome.video_path) + "\n"@ + "  Status: "@ + (if outcome.success {
        "SUCCESS"@
    } else {
        "FAILED"@
    }) + "\n"@ + "  Processing time: "@ + fixed_text(outcome.processing_time as nat, 2) + "s\n"@
        + outcome_detail(outcome) + "\n"@
}

/// The lines of all assets, in order.
pub open spec fn all_outcome_lines(outcomes: Seq<OutcomeView>) -> Seq<char>
    decreases outcomes.len(),
{
    if outcomes.len() == 0 {
        Seq::empty()
    } else {
        all_outcome_lines(outcomes.drop_last()) + outcome_lines(outcomes.last())
    }
}

/// The whole summary.
pub open spec fn summary_text(outcomes: Seq<OutcomeView>, total_time: int) -> Seq<char> {
    summary_head(outcomes, total_time) + all_outcome_lines(outcomes)
}

/// How many of the outcomes are successes.
pub fn count_successful(results: &Vec<VideoProcessingResult>) -> (count: usize)
    ensures
        count == count_successes(outcomes_view(results@)),
        count <= results@.len(),
{
    let ghost view = outcomes_view(results@);
    let mut count: usize = 0;
    let mut i: usize = 0;
    while i < results.len()
        invariant
            i <= results.len(),
            view == outcomes_view(results@),
            count == count_successes(view.take(i as int)),
            count <= i,
        decreases results.len() - i,
    {
        assert(view.take(i + 1).drop_last() =~= view.take(i as int));
        assert(view.take(i + 1).last() == results@[i as int]@);
        if results[i].success {
            count += 1;
        }
        i += 1;
    }
    assert(view.take(view.len() as int) =~= view);
    count
}

/// Appends the lines of one asset to `out`.
fn push_outcome_lines(out: &mut String, result: &VideoProcessingResult)
    ensures
        final(out)@ == old(out)@ + outcome_lines(result@),
{
    out.append("Video: ");
    push_quoted(out, result.video_path.as_str());
    out.append("\n");
    out.append("  Status: ");
    if result.success {
        out.append("SUCCESS");
    } else {
        out.append("FAILED");
    }
    out.append("\n");
    out.append("  Processing time: ");
    push_fixed(out, result.processing_time, 2);
    out.append("s\n");
    let ghost before_detail = out@;
    if result.success {
        out.append("  Frames processed: ");
        push_decimal(out, result.frame_count as u64);
        out.append("\n");
        out.append("  Audio segments: ");
        push_decimal(out, result.audio_segments as u64);
        out.append("\n");
    } else {
        match &result.error_message {
            Some(error) => {
                out.append("  Error: ");
                out.append(error.as_str());
                out.append("\n");
            },
            None => {},
        }
    }
    assert(out@ =~= before_detail + outcome_detail(result@));
    out.append("\n");
    assert(out@ =~= old(out)@ + outcome_lines(result@));
}

/// The summary of a batch: its counts, its total and average time, and the
/// lines of every asset, in order.
pub fn generate_batch_summary(results: &Vec<VideoProcessingResult>, total_time: u64) -> (text:
    String)
    ensures
        text@ == summary_text(outcomes_view(results@), total_time as int),
{
    let ghost view = outcomes_view(results@);
    let successful = count_successful(results);
    let mut out = String::from_str("=== Batch Processing Summary ===\n");
    out.append("Total videos processed: ");
    push_decimal(&mut out, results.len() as u64);
    out.append("\n");
    out.append("Successful: ");
    push_decimal(&mut out, successful as u64);
    out.append("\n");
    out.append("Failed: ");
    push_decimal(&mut out, (results.len() - successful) as u64);
    out.append("\n");
    out.append("Total processing time: ");
    push_fixed(&mut out, total_time, 2);
    out.append("s\n");
    out.append("Average time per video: ");
    if results.len() == 0 {
        out.append("NaN");
    } else {
        push_fixed(&mut out, total_time / (results.len() as u64), 2);
    }
    out.append("s\n");
    out.append("\n");
    out.append("=== Individual Results ===\n");
    assert(out@ =~= summary_head(view, total_time as int));
    let ghost head = out@;
    let mut i: usize = 0;
    while i < results.len()
        invariant
            i <= results.len(),
            view == outcomes_view(results@),
            out@ == head + all_outcome_lines(view.take(i as int)),
        decreases results.len() - i,
    {
        assert(view.take(i + 1).drop_last() =~= view.take(i as int));
        assert(view.take(i + 1).last() == results@[i as int]@);
        push_outcome_lines(&mut out, &results[i]);
        assert(out@ =~= head + all_outcome_lines(view.take(i + 1)));
        i += 1;
    }
    assert(view.take(view.len() as int) =~= view);
    out
}

} // verus!
