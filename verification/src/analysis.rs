//! The analysis engine: chunked Map-Reduce over the LLM port, idempotent
//! per-week logging, Markdown report rendering, and the tracker dispatch of
//! action items. Also the LLM response sanitizer and the mock LLM used for
//! development.

use vstd::prelude::*;
use crate::domain::{
    ActionItem, ActionItemView, AnalysisResult, AnalysisResultView, DomainError, Message,
    WeekGroup,
};
use crate::ports::{spec_message_weeks, AiPort, AnalysisLogPort, ProcessorPort, TaskTrackerPort};
use crate::textutil::{push_char, spec_dec_i64};
use crate::timefmt::{unix_now, utc_minute_label};

verus! {

/// Ceiling on characters per LLM context chunk.
pub const MAX_CHUNK_SIZE: usize = 50000;

// ─── report rendering ────────────────────────────────────────────────────────

/// The `Analyzed` stamp: the rendered minute plus ` UTC`, or `Unknown`.
pub open spec fn spec_report_stamp(ts: int) -> Seq<char> {
    match utc_minute_label(ts) {
        Option::Some(s) => s + " UTC"@,
        Option::None => "Unknown"@,
    }
}

fn report_stamp(ts: i64) -> (r: String)
    ensures
        r@ == spec_report_stamp(ts as int),
{
    match crate::timefmt::format_utc_minute(ts) {
        Option::Some(s) => {
            let r = s.concat(" UTC");
            r
        },
        Option::None => {
            let mut s = String::new();
            let r = s.concat("Unknown");
            proof {
                assert(r@ =~= "Unknown"@);
            }
            r
        },
    }
}

/// The parenthesised metadata of one action item, empty when no field is
/// present.
pub open spec fn spec_item_meta(a: ActionItemView) -> Seq<char> {
    let parts = spec_meta_parts(a);
    if parts.len() == 0 {
        Seq::<char>::empty()
    } else {
        " ("@ + spec_join_commas(parts) + ")"@
    }
}

/// The present metadata fields of one action item, labelled.
pub open spec fn spec_meta_parts(a: ActionItemView) -> Seq<Seq<char>> {
    let o: Seq<Seq<char>> = match a.owner {
        Option::Some(s) => seq!["Owner: "@ + s],
        Option::None => Seq::empty(),
    };
    let d: Seq<Seq<char>> = match a.deadline {
        Option::Some(s) => seq!["Due: "@ + s],
        Option::None => Seq::empty(),
    };
    let p: Seq<Seq<char>> = match a.priority {
        Option::Some(s) => seq!["Priority: "@ + s],
        Option::None => Seq::empty(),
    };
    o + d + p
}

/// Comma-joined parts.
pub open spec fn spec_join_commas(parts: Seq<Seq<char>>) -> Seq<char>
    decreases parts.len(),
{
    if parts.len() == 0 {
        Seq::<char>::empty()
    } else if parts.len() == 1 {
        parts[0]
    } else {
        spec_join_commas(parts.drop_last()) + ", "@ + parts.last()
    }
}

/// One action-item line of the report.
pub open spec fn spec_item_line(a: ActionItemView) -> Seq<char> {
    "- [ ] **"@ + a.description + "**"@ + spec_item_meta(a) + "\n"@
}

/// The action-item lines, in order.
pub open spec fn spec_item_lines(items: Seq<ActionItemView>) -> Seq<char>
    decreases items.len(),
{
    if items.len() == 0 {
        Seq::<char>::empty()
    } else {
        spec_item_lines(items.drop_last()) + spec_item_line(items.last())
    }
}

/// The key-topic bullet lines, in order.
pub open spec fn spec_topic_lines(topics: Seq<Seq<char>>) -> Seq<char>
    decreases topics.len(),
{
    if topics.len() == 0 {
        Seq::<char>::empty()
    } else {
        spec_topic_lines(topics.drop_last()) + "- "@ + topics.last() + "\n"@
    }
}

/// The whole Markdown report of one analysis result.
pub open spec fn spec_report(r: AnalysisResultView) -> Seq<char> {
    "# Weekly Digest: "@ + r.week_group + "\n\n**Chat ID:** "@ + spec_dec_i64(r.chat_id)
        + " | **Analyzed:** "@ + spec_report_stamp(r.analyzed_at) + "\n\n---\n\n## Summary\n\n"@
        + r.summary + "\n\n"@ + (if r.key_topics.len() > 0 {
        "## Key Topics\n\n"@ + spec_topic_lines(r.key_topics) + "\n"@
    } else {
        Seq::<char>::empty()
    }) + (if r.action_items.len() > 0 {
        "## Action Items\n\n"@ + spec_item_lines(r.action_items) + "\n"@
    } else {
        Seq::<char>::empty()
    }) + "---\n*Generated by tg-sync AI Analysis*\n"@
}

/// The report file name: `analysis_{chat_id}_{week}.md`.
pub open spec fn spec_report_filename(chat_id: int, week: Seq<char>) -> Seq<char> {
    "analysis_"@ + spec_dec_i64(chat_id) + "_"@ + week + ".md"@
}

/// Renders the report file name of a result.
pub fn report_filename(result: &AnalysisResult) -> (r: String)
    ensures
        r@ == spec_report_filename(result.chat_id as int, result.week_group@),
{
    let mut s = String::new();
    let mut s = s.concat("analysis_");
    let cid = crate::textutil::fmt_i64(result.chat_id);
    let mut s = s.concat(cid.as_str());
    let mut s = s.concat("_");
    let mut s = s.concat(result.week_group.as_str());
    let r = s.concat(".md");
    proof {
        assert(r@ =~= spec_report_filename(result.chat_id as int, result.week_group@));
    }
    r
}

fn render_item_line(a: &ActionItem) -> (r: String)
    ensures
        r@ == spec_item_line(a@),
{
    let mut meta_parts: Vec<String> = Vec::new();
    match &a.owner {
        Option::Some(o) => {
            let mut p = String::new();
            let mut p = p.concat("Owner: ");
            let p = p.concat(o.as_str());
            meta_parts.push(p);
        },
        Option::None => {},
    }
    match &a.deadline {
        Option::Some(d) => {
            let mut p = String::new();
            let mut p = p.concat("Due: ");
            let p = p.concat(d.as_str());
            meta_parts.push(p);
        },
        Option::None => {},
    }
    match &a.priority {
        Option::Some(p0) => {
            let mut p = String::new();
            let mut p = p.concat("Priority: ");
            let p = p.concat(p0.as_str());
            meta_parts.push(p);
        },
        Option::None => {},
    }
    proof {
        assert(meta_parts@.map_values(|s: String| s@) =~= spec_meta_parts(a@));
    }
    let mut line = String::new();
    let mut line = line.concat("- [ ] **");
    let mut line = line.concat(a.description.as_str());
    let mut line = line.concat("**");
    if meta_parts.len() > 0 {
        let mut line2 = line.concat(" (");
        let mut joined = String::new();
        let n = meta_parts.len();
        let mut i: usize = 0;
        while i < n
            invariant
                i <= n,
                0 < n,
                n == meta_parts@.len(),
                i > 0 ==> joined@ == spec_join_commas(
                    meta_parts@.map_values(|s: String| s@).take(i as int),
                ),
                i == 0 ==> joined@ == Seq::<char>::empty(),
            decreases n - i,
        {
            if i > 0 {
                joined.append(", ");
            }
            joined.append(meta_parts[i].as_str());
            proof {
                let pv = meta_parts@.map_values(|s: String| s@);
                assert(pv.take(i + 1).drop_last() =~= pv.take(i as int));
                assert(pv.take(i + 1).last() == pv[i as int]);
                if i == 0 {
                    assert(joined@ =~= spec_join_commas(pv.take(1)));
                } else {
                    assert(joined@ =~= spec_join_commas(pv.take(i + 1)));
                }
            }
            i = i + 1;
        }
        proof {
            let pv = meta_parts@.map_values(|s: String| s@);
            assert(pv.take(n as int) =~= pv);
        }
        let mut line3 = line2.concat(joined.as_str());
        let mut line4 = line3.concat(")");
        let line4 = line4.concat("\n");
        proof {
            assert(line4@ =~= spec_item_line(a@));
        }
        line4
    } else {
        let line2 = line.concat("\n");
        proof {
            assert(line2@ =~= spec_item_line(a@));
        }
        line2
    }
}

/// Renders the Markdown report of one analysis result.
pub fn render_report(result: &AnalysisResult) -> (r: String)
    ensures
        r@ == spec_report(result@),
{
    let mut md = String::new();
    let mut md = md.concat("# Weekly Digest: ");
    let mut md = md.concat(result.week_group.as_str());
    let mut md = md.concat("\n\n**Chat ID:** ");
    let cid = crate::textutil::fmt_i64(result.chat_id);
    let mut md = md.concat(cid.as_str());
    let mut md = md.concat(" | **Analyzed:** ");
    let stamp = report_stamp(result.analyzed_at);
    let mut md = md.concat(stamp.as_str());
    let mut md = md.concat("\n\n---\n\n## Summary\n\n");
    let mut md = md.concat(result.summary.as_str());
    let mut md = md.concat("\n\n");
    let ghost before_topics = md@;
    if result.key_topics.len() > 0 {
        md.append("## Key Topics\n\n");
        let n = result.key_topics.len();
        let ghost tv = result.key_topics@.map_values(|t: String| t@);
        let mut i: usize = 0;
        while i < n
            invariant
                i <= n,
                n == result.key_topics@.len(),
                tv == result.key_topics@.map_values(|t: String| t@),
                md@ == before_topics + "## Key Topics\n\n"@ + spec_topic_lines(
                    tv.take(i as int),
                ),
            decreases n - i,
        {
            md.append("- ");
            md.append(result.key_topics[i].as_str());
            md.append("\n");
            proof {
                assert(tv.take(i + 1).drop_last() =~= tv.take(i as int));
                assert(tv.take(i + 1).last() == tv[i as int]);
                assert(md@ =~= before_topics + "## Key Topics\n\n"@ + spec_topic_lines(
                    tv.take(i + 1),
                ));
            }
            i = i + 1;
        }
        md.append("\n");
        proof {
            assert(tv.take(n as int) =~= tv);
        }
    }
    let ghost before_items = md@;
    if result.action_items.len() > 0 {
        md.append("## Action Items\n\n");
        let n = result.action_items.len();
        let ghost av = result.action_items@.map_values(|a: ActionItem| a@);
        let mut i: usize = 0;
        while i < n
            invariant
                i <= n,
                n == result.action_items@.len(),
                av == result.action_items@.map_values(|a: ActionItem| a@),
                md@ == before_items + "## Action Items\n\n"@ + spec_item_lines(
                    av.take(i as int),
                ),
            decreases n - i,
        {
            let line = render_item_line(&result.action_items[i]);
            md.append(line.as_str());
            proof {
                assert(av.take(i + 1).drop_last() =~= av.take(i as int));
                assert(av.take(i + 1).last() == av[i as int]);
                assert(md@ =~= before_items + "## Action Items\n\n"@ + spec_item_lines(
                    av.take(i + 1),
                ));
            }
            i = i + 1;
        }
        md.append("\n");
        proof {
            assert(av.take(n as int) =~= av);
        }
    }
    let r = md.concat("---\n*Generated by tg-sync AI Analysis*\n");
    proof {
        assert(r@ =~= spec_report(result@));
    }
    r
}

/// The tracker card description of one action item: the present labelled
/// fields, then the week; empty when no field is present.
pub open spec fn spec_tracker_description(a: ActionItemView, week: Seq<char>) -> Seq<char> {
    let parts = spec_desc_parts(a);
    if parts.len() == 0 {
        Seq::<char>::empty()
    } else {
        spec_join_newlines(parts) + "\n\nWeek: "@ + week
    }
}

/// Owner and priority labelled, when present.
pub open spec fn spec_desc_parts(a: ActionItemView) -> Seq<Seq<char>> {
    let o: Seq<Seq<char>> = match a.owner {
        Option::Some(s) => seq!["Owner: "@ + s],
        Option::None => Seq::empty(),
    };
    let p: Seq<Seq<char>> = match a.priority {
        Option::Some(s) => seq!["Priority: "@ + s],
        Option::None => Seq::empty(),
    };
    o + p
}

/// Newline-joined parts.
pub open spec fn spec_join_newlines(parts: Seq<Seq<char>>) -> Seq<char>
    decreases parts.len(),
{
    if parts.len() == 0 {
        Seq::<char>::empty()
    } else if parts.len() == 1 {
        parts[0]
    } else {
        spec_join_newlines(parts.drop_last()) + "\n"@ + parts.last()
    }
}

/// Renders the tracker card description of one action item.
pub fn tracker_description(a: &ActionItem, week: &WeekGroup) -> (r: String)
    ensures
        r@ == spec_tracker_description(a@, week@),
{
    let mut parts: Vec<String> = Vec::new();
    match &a.owner {
        Option::Some(o) => {
            let mut p = String::new();
            let mut p = p.concat("Owner: ");
            let p = p.concat(o.as_str());
            parts.push(p);
        },
        Option::None => {},
    }
    match &a.priority {
        Option::Some(p0) => {
            let mut p = String::new();
            let mut p = p.concat("Priority: ");
            let p = p.concat(p0.as_str());
            parts.push(p);
        },
        Option::None => {},
    }
    proof {
        assert(parts@.map_values(|s: String| s@) =~= spec_desc_parts(a@));
    }
    if parts.len() == 0 {
        let r = String::new();
        return r;
    }
    let mut joined = String::new();
    let n = parts.len();
    let mut i: usize = 0;
    while i < n
        invariant
            i <= n,
            0 < n,
            n == parts@.len(),
            i > 0 ==> joined@ == spec_join_newlines(
                parts@.map_values(|s: String| s@).take(i as int),
            ),
            i == 0 ==> joined@ == Seq::<char>::empty(),
        decreases n - i,
    {
        if i > 0 {
            joined.append("\n");
        }
        joined.append(parts[i].as_str());
        proof {
            let pv = parts@.map_values(|s: String| s@);
            assert(pv.take(i + 1).drop_last() =~= pv.take(i as int));
            assert(pv.take(i + 1).last() == pv[i as int]);
            if i == 0 {
                assert(joined@ =~= spec_join_newlines(pv.take(1)));
            } else {
                assert(joined@ =~= spec_join_newlines(pv.take(i + 1)));
            }
        }
        i = i + 1;
    }
    proof {
        let pv = parts@.map_values(|s: String| s@);
        assert(pv.take(n as int) =~= pv);
    }
    let mut r = joined.concat("\n\nWeek: ");
    let r = r.concat(week.as_str());
    proof {
        assert(r@ =~= spec_tracker_description(a@, week@));
    }
    r
}

// ─── the analysis engine ─────────────────────────────────────────────────────

/// One emitted report: the file name under the reports directory, and its
/// Markdown content. The composition root writes it to disk.
pub struct Report {
    pub filename: String,
    pub markdown: String,
}

/// The report answers to a week of the chat newly added to the analysis log
/// (in `log` but not in `pre`): its file name follows the naming rule and its
/// Markdown renders exactly the entry the log now holds for that week.
pub open spec fn spec_report_for<L: AnalysisLogPort>(log: L, pre: L, chat: int, rep: Report) -> bool {
    exists|w: Seq<char>|
        log.analyzed_weeks(chat).contains(w) && !pre.analyzed_weeks(chat).contains(w)
            && rep.filename@ == #[trigger] spec_report_filename(chat, w) && rep.markdown@
            == spec_report(log.analysis_entry(chat, w))
}

/// The analysis engine, configured with the LLM port, the reports directory
/// name, and an optional task tracker.
pub struct AnalysisService<A, T> {
    ai: A,
    reports_dir: String,
    task_tracker: Option<T>,
}

impl<A: AiPort, T: TaskTrackerPort> AnalysisService<A, T> {
    /// A new analysis engine.
    pub fn new(ai: A, reports_dir: String, task_tracker: Option<T>) -> (r: AnalysisService<A, T>) {
        AnalysisService { ai, reports_dir, task_tracker }
    }

    /// The week keys available for analysis — analyzed or not — in
    /// chronological order: exactly the populated weeks of the chat, each
    /// once, lexically ascending.
    pub fn get_available_weeks<L: AnalysisLogPort>(&self, repo: &L, chat_id: i64) -> (r: Result<
        Vec<WeekGroup>,
        DomainError,
    >)
        requires
            repo.log_inv(),
        ensures
            r matches Ok(v) ==> forall|i: int, j: int|
                0 <= i < j < v@.len() ==> crate::textutil::lex_le((#[trigger] v@[i])@, (
                #[trigger] v@[j])@) && v@[i]@ != v@[j]@,
            r matches Ok(v) ==> v@.map_values(|w: WeekGroup| w@).to_set() == spec_message_weeks(
                repo.stored_rows(),
                chat_id as int,
            ),
    {
        let groups = match repo.get_messages_by_week(chat_id) {
            Ok(g) => g,
            Err(e) => {
                return Err(e);
            },
        };
        let ghost gv = groups@.map_values(
            |g: (WeekGroup, Vec<Message>)| (g.0@, g.1@.map_values(|m: Message| m@)),
        );
        let mut out: Vec<WeekGroup> = Vec::new();
        let n = groups.len();
        let mut i: usize = 0;
        while i < n
            invariant
                i <= n,
                n == groups@.len(),
                gv == groups@.map_values(
                    |g: (WeekGroup, Vec<Message>)| (g.0@, g.1@.map_values(|m: Message| m@)),
                ),
                out@.len() == i,
                forall|k: int| 0 <= k < i ==> (#[trigger] out@[k])@ == gv[k].0,
                forall|a: int, b: int|
                    0 <= a < b < gv.len() ==> crate::textutil::lex_le(
                        #[trigger] gv[a].0,
                        #[trigger] gv[b].0,
                    ) && gv[a].0 != gv[b].0,
            decreases n - i,
        {
            out.push(groups[i].0.duplicate());
            i = i + 1;
        }
        proof {
            broadcast use vstd::seq_lib::group_to_multiset_ensures;

            let cint = chat_id as int;
            let ov = out@.map_values(|w: WeekGroup| w@);
            let eligible = crate::ports::spec_eligible_rows(repo.stored_rows(), cint);
            assert(crate::ports::by_week_post(eligible, gv));
            assert forall|w: Seq<char>| ov.to_set().contains(w) implies spec_message_weeks(
                repo.stored_rows(),
                cint,
            ).contains(w) by {
                let k = choose|k: int| 0 <= k < ov.len() && ov[k] == w;
                assert(out@[k]@ == gv[k].0);
                assert(gv[k].1.len() > 0);
                assert(gv[k].1.to_multiset() == crate::ports::spec_week_rows(
                    eligible,
                    w,
                ).to_multiset());
                assert(gv[k].1.to_multiset().len() == gv[k].1.len());
                assert(crate::ports::spec_week_rows(eligible, w).to_multiset().len()
                    == crate::ports::spec_week_rows(eligible, w).len());
                assert(crate::ports::spec_week_rows(eligible, w).len() > 0);
                crate::ports::lemma_week_rows_populated(repo.stored_rows(), cint, w);
            };
            assert forall|w: Seq<char>| spec_message_weeks(repo.stored_rows(), cint).contains(
                w,
            ) implies ov.to_set().contains(w) by {
                let k = choose|k: int|
                    0 <= k < eligible.len() && crate::timefmt::spec_week_of(
                        eligible[k].date,
                    ) == w;
                assert(crate::ports::group_keys(gv).contains(
                    crate::timefmt::spec_week_of(eligible[k].date),
                ));
                let g = choose|g: int| 0 <= g < gv.len() && (#[trigger] gv[g]).0 == w;
                assert(ov[g] == gv[g].0);
                assert(ov.contains(w));
            };
            assert(ov.to_set() =~= spec_message_weeks(repo.stored_rows(), cint));
        }
        Ok(out)
    }

    /// Analyzes the unanalyzed weeks of a chat: renders CSV chunks, runs the
    /// Map-Reduce over the LLM, logs each successful week, dispatches action
    /// items, and returns the reports to write. A failed week is skipped and
    /// later weeks are still attempted. Every returned report belongs to a
    /// week newly added to the log: its file name follows the naming rule and
    /// its Markdown renders the entry the log now holds. When every populated
    /// week is already in the log, nothing happens and no report is returned
    /// — running the analysis twice without new messages is a no-op the
    /// second time.
    ///
    /// With `single_week`, only the most recent unanalyzed week is
    /// processed: at most the lexicographically greatest unanalyzed week is
    /// newly added to the log.
    pub fn analyze_chat<L: AnalysisLogPort>(
        &self,
        repo: &mut L,
        chat_id: i64,
        single_week: bool,
    ) -> (r: Result<Vec<Report>, DomainError>)
        requires
            old(repo).log_inv(),
        ensures
            final(repo).log_inv(),
            final(repo).stored_rows() == old(repo).stored_rows(),
            forall|c: int|
                c != chat_id as int ==> #[trigger] final(repo).analyzed_weeks(c)
                    == old(repo).analyzed_weeks(c),
            forall|w: Seq<char>|
                old(repo).analyzed_weeks(chat_id as int).contains(w)
                    ==> #[trigger] final(repo).analyzed_weeks(chat_id as int).contains(w),
            forall|w: Seq<char>|
                #[trigger] final(repo).analyzed_weeks(chat_id as int).contains(w)
                    ==> old(repo).analyzed_weeks(chat_id as int).contains(w)
                        || spec_message_weeks(old(repo).stored_rows(), chat_id as int).contains(w),
            spec_message_weeks(old(repo).stored_rows(), chat_id as int).subset_of(
                old(repo).analyzed_weeks(chat_id as int),
            ) ==> final(repo).analyzed_weeks(chat_id as int) == old(repo).analyzed_weeks(
                chat_id as int,
            ) && (r matches Ok(v) ==> v@.len() == 0),
            r matches Ok(v) ==> forall|k: int|
                0 <= k < v@.len() ==> #[trigger] spec_report_for(
                    *final(repo),
                    *old(repo),
                    chat_id as int,
                    v@[k],
                ),
            single_week ==> forall|w: Seq<char>|
                #[trigger] final(repo).analyzed_weeks(chat_id as int).contains(w) && !old(
                    repo,
                ).analyzed_weeks(chat_id as int).contains(w)
                    ==> spec_message_weeks(old(repo).stored_rows(), chat_id as int).difference(
                    old(repo).analyzed_weeks(chat_id as int),
                ).contains(w) && (forall|w2: Seq<char>|
                    spec_message_weeks(old(repo).stored_rows(), chat_id as int).difference(
                        old(repo).analyzed_weeks(chat_id as int),
                    ).contains(w2) ==> crate::textutil::lex_le(w2, w)),
    {
        let ghost cint = chat_id as int;
        let ghost uset = spec_message_weeks(old(repo).stored_rows(), cint).difference(
            old(repo).analyzed_weeks(cint),
        );
        let unanalyzed = match repo.get_unanalyzed_weeks(chat_id) {
            Ok(w) => w,
            Err(e) => {
                return Err(e);
            },
        };
        let ghost uv = unanalyzed@.map_values(|w: WeekGroup| w@);
        proof {
            assert(uv.to_set() == uset);
            assert forall|i: int, j: int| 0 <= i < j < uv.len() implies crate::textutil::lex_le(
                #[trigger] uv[i],
                #[trigger] uv[j],
            ) && uv[i] != uv[j] by {
                assert(uv[i] == unanalyzed@[i]@);
                assert(uv[j] == unanalyzed@[j]@);
            };
        }
        if unanalyzed.len() == 0 {
            let empty: Vec<Report> = Vec::new();
            return Ok(empty);
        }
        proof {
            if spec_message_weeks(repo.stored_rows(), cint).subset_of(
                repo.analyzed_weeks(cint),
            ) {
                assert(uv.to_set() =~= Set::<Seq<char>>::empty());
                assert(uv.no_duplicates()) by {
                    assert forall|i: int, j: int|
                        0 <= i < uv.len() && 0 <= j < uv.len() && i != j implies uv[i] != uv[
                        j
                    ] by {
                        crate::textutil::lex_le_total(uv[i], uv[j]);
                    };
                }
                uv.unique_seq_to_set();
                assert(uv.len() == 0);
                assert(false);
            }
        }
        let weeks: Vec<WeekGroup> = if single_week {
            let mut w: Vec<WeekGroup> = Vec::new();
            w.push(unanalyzed[unanalyzed.len() - 1].duplicate());
            w
        } else {
            unanalyzed
        };
        let ghost wv = weeks@.map_values(|w: WeekGroup| w@);
        proof {
            if single_week {
                assert(wv[0] == uv[uv.len() - 1]);
                assert(uv.contains(uv[uv.len() - 1]));
                assert forall|w2: Seq<char>| uset.contains(w2) implies crate::textutil::lex_le(
                    w2,
                    wv[0],
                ) by {
                    assert(uv.contains(w2));
                    let i2 = choose|i2: int| 0 <= i2 < uv.len() && uv[i2] == w2;
                    if i2 < uv.len() - 1 {
                        assert(crate::textutil::lex_le(uv[i2], uv[uv.len() - 1]));
                    } else {
                        crate::textutil::lex_le_reflexive(w2);
                    }
                };
            } else {
                assert(wv =~= uv);
            }
            assert forall|w: Seq<char>| wv.contains(w) implies uset.contains(w) by {
                if single_week {
                    let k = choose|k: int| 0 <= k < wv.len() && wv[k] == w;
                    assert(k == 0);
                } else {
                    assert(uv.contains(w));
                }
            };
        }
        let grouped = match repo.get_messages_by_week(chat_id) {
            Ok(g) => g,
            Err(e) => {
                return Err(e);
            },
        };
        let ghost gv = grouped@.map_values(
            |g: (WeekGroup, Vec<Message>)| (g.0@, g.1@.map_values(|m: Message| m@)),
        );
        proof {
            assert(crate::ports::by_week_post(
                crate::ports::spec_eligible_rows(repo.stored_rows(), cint),
                gv,
            ));
        }
        let mut reports: Vec<Report> = Vec::new();
        let ghost mut rw: Seq<Seq<char>> = Seq::empty();
        let gn = grouped.len();
        let mut gi: usize = 0;
        while gi < gn
            invariant
                gi <= gn,
                gn == grouped@.len(),
                cint == chat_id as int,
                repo.log_inv(),
                repo.stored_rows() == old(repo).stored_rows(),
                uset == spec_message_weeks(old(repo).stored_rows(), cint).difference(
                    old(repo).analyzed_weeks(cint),
                ),
                wv == weeks@.map_values(|w: WeekGroup| w@),
                gv == grouped@.map_values(
                    |g: (WeekGroup, Vec<Message>)| (g.0@, g.1@.map_values(|m: Message| m@)),
                ),
                forall|a: int, b: int|
                    0 <= a < b < gv.len() ==> crate::textutil::lex_le(
                        (#[trigger] gv[a]).0,
                        (#[trigger] gv[b]).0,
                    ) && gv[a].0 != gv[b].0,
                forall|w: Seq<char>| wv.contains(w) ==> uset.contains(w),
                single_week ==> wv.len() == 1,
                single_week ==> forall|w2: Seq<char>|
                    uset.contains(w2) ==> crate::textutil::lex_le(w2, wv[0]),
                forall|c: int|
                    c != cint ==> #[trigger] repo.analyzed_weeks(c) == old(repo).analyzed_weeks(c),
                forall|w: Seq<char>|
                    old(repo).analyzed_weeks(cint).contains(w) ==> #[trigger] repo.analyzed_weeks(
                        cint,
                    ).contains(w),
                forall|w: Seq<char>|
                    #[trigger] repo.analyzed_weeks(cint).contains(w) ==> old(repo).analyzed_weeks(
                        cint,
                    ).contains(w) || wv.contains(w),
                rw.len() == reports@.len(),
                forall|k: int|
                    0 <= k < rw.len() ==> wv.contains(#[trigger] rw[k]) && repo.analyzed_weeks(
                        cint,
                    ).contains(rw[k]) && reports@[k].filename@ == spec_report_filename(cint, rw[k])
                        && reports@[k].markdown@ == spec_report(repo.analysis_entry(cint, rw[k])),
                forall|k: int, g: int|
                    0 <= k < rw.len() && gi <= g < gn ==> #[trigger] rw[k] != (#[trigger] gv[g]).0,
            decreases gn - gi,
        {
            let week_matches = week_in_list(&weeks, &grouped[gi].0);
            let group_len = grouped[gi].1.len();
            if week_matches && group_len > 0 {
                let week = grouped[gi].0.duplicate();
                proof {
                    assert(gv[gi as int].0 == grouped@[gi as int].0@);
                    assert(week@ == gv[gi as int].0);
                    assert(wv.contains(gv[gi as int].0));
                }
                let chunks = match crate::csvfmt::messages_to_csv_chunked(
                    &grouped[gi].1,
                    MAX_CHUNK_SIZE,
                ) {
                    Ok(c) => c,
                    Err(_) => {
                        gi = gi + 1;
                        continue ;
                    },
                };
                let result = match self.analyze_week_chunks(chat_id, &week, &chunks) {
                    Ok(a) => a,
                    Err(_) => {
                        gi = gi + 1;
                        continue ;
                    },
                };
                let ghost pre_save = *repo;
                match repo.save_analysis(&result) {
                    Ok(()) => {},
                    Err(_) => {
                        proof {
                            assert forall|k: int| 0 <= k < rw.len() implies repo.analysis_entry(
                                cint,
                                #[trigger] rw[k],
                            ) == pre_save.analysis_entry(cint, rw[k]) by {
                                assert(rw[k] != gv[gi as int].0);
                            };
                        }
                        gi = gi + 1;
                        continue ;
                    },
                }
                self.send_action_items_to_tracker(&result);
                let filename = report_filename(&result);
                let markdown = render_report(&result);
                proof {
                    assert forall|k: int| 0 <= k < rw.len() implies repo.analysis_entry(
                        cint,
                        #[trigger] rw[k],
                    ) == pre_save.analysis_entry(cint, rw[k]) by {
                        assert(rw[k] != gv[gi as int].0);
                    };
                }
                reports.push(Report { filename, markdown });
                proof {
                    rw = rw.push(week@);
                    assert(reports@[rw.len() - 1].filename@ == spec_report_filename(
                        cint,
                        gv[gi as int].0,
                    ));
                    assert(repo.analysis_entry(cint, gv[gi as int].0) == result@);
                    assert forall|k: int, g: int|
                        0 <= k < rw.len() && gi + 1 <= g < gn implies #[trigger] rw[k] != (
                    #[trigger] gv[g]).0 by {
                        if k == rw.len() - 1 {
                            assert(crate::textutil::lex_le(gv[gi as int].0, gv[g].0) && gv[
                                gi as int
                            ].0 != gv[g].0);
                        }
                    };
                }
            }
            gi = gi + 1;
        }
        proof {
            assert forall|w: Seq<char>| #[trigger] repo.analyzed_weeks(cint).contains(w) implies
                old(repo).analyzed_weeks(cint).contains(w) || spec_message_weeks(
                old(repo).stored_rows(),
                cint,
            ).contains(w) by {
                if !old(repo).analyzed_weeks(cint).contains(w) {
                    assert(wv.contains(w));
                    assert(uset.contains(w));
                }
            };
            assert forall|k: int| 0 <= k < reports@.len() implies #[trigger] spec_report_for(
                *repo,
                *old(repo),
                cint,
                reports@[k],
            ) by {
                assert(uset.contains(rw[k]));
                assert(!old(repo).analyzed_weeks(cint).contains(rw[k]));
                assert(repo.analyzed_weeks(cint).contains(rw[k]) && !old(repo).analyzed_weeks(
                    cint,
                ).contains(rw[k]) && reports@[k].filename@ == spec_report_filename(cint, rw[k])
                    && reports@[k].markdown@ == spec_report(repo.analysis_entry(cint, rw[k])));
            };
        }
        Ok(reports)
    }

    /// Renders one week's messages as CSV chunks under the given size
    /// ceiling. Rendering is total: the result is always `Ok`.
    pub fn messages_to_csv_chunked(&self, messages: &Vec<Message>, max_size: usize) -> (r: Result<
        Vec<String>,
        DomainError,
    >)
        ensures
            r is Ok,
            r matches Ok(chunks) ==> crate::csvfmt::chunked_post(
                messages@.map_values(|m: Message| m@),
                chunks@.map_values(|s: String| s@),
                max_size as int,
            ),
    {
        match crate::csvfmt::messages_to_csv_chunked(messages, max_size) {
            Ok(c) => Ok(c),
            Err(_) => {
                let mut m = String::new();
                let m = m.concat("CSV chunk rendering failed");
                Err(DomainError::Ai(m))
            },
        }
    }

    /// One week's Map-Reduce: a single chunk goes straight to `analyze`;
    /// several chunks are summarized one by one and the summaries, joined by
    /// blank lines as [`join_blank_lines`] states, analyzed. No chunks is a
    /// failure.
    pub fn analyze_week_chunks(&self, chat_id: i64, week: &WeekGroup, chunks: &Vec<String>) -> (r:
        Result<AnalysisResult, DomainError>)
        ensures
            chunks@.len() == 0 ==> r is Err,
            r matches Ok(a) ==> a.chat_id == chat_id && a.week_group@ == week@,
    {
        if chunks.len() == 0 {
            let mut m = String::new();
            let m = m.concat("No chunks to analyze");
            return Err(DomainError::Ai(m));
        }
        if chunks.len() == 1 {
            return self.ai.analyze(chat_id, week, chunks[0].as_str());
        }
        let mut summaries: Vec<String> = Vec::new();
        let n = chunks.len();
        let mut i: usize = 0;
        while i < n
            invariant
                i <= n,
                n == chunks@.len(),
            decreases n - i,
        {
            let summary = match self.ai.summarize(chunks[i].as_str()) {
                Ok(s) => s,
                Err(e) => {
                    return Err(e);
                },
            };
            summaries.push(summary);
            i = i + 1;
        }
        let combined = join_blank_lines(&summaries);
        self.ai.analyze(chat_id, week, combined.as_str())
    }

    /// Sends the action items of one result to the tracker, when one is
    /// configured. A per-item failure never fails the analysis.
    pub fn send_action_items_to_tracker(&self, result: &AnalysisResult) {
        if result.action_items.len() == 0 {
            return ;
        }
        match &self.task_tracker {
            Option::Some(tracker) => {
                let n = result.action_items.len();
                let mut i: usize = 0;
                while i < n
                    invariant
                        i <= n,
                        n == result.action_items@.len(),
                    decreases n - i,
                {
                    let item = &result.action_items[i];
                    let description = tracker_description(item, &result.week_group);
                    let due = crate::domain::opt_clone_string(&item.deadline);
                    let _ = tracker.create_task(item.description.as_str(), description.as_str(), due);
                    i = i + 1;
                }
            },
            Option::None => {},
        }
    }

    /// The configured reports directory name.
    pub fn reports_dir(&self) -> &str {
        self.reports_dir.as_str()
    }
}

/// Parts joined with one blank line between successive parts.
pub open spec fn spec_join_blank_lines(parts: Seq<Seq<char>>) -> Seq<char>
    decreases parts.len(),
{
    if parts.len() == 0 {
        Seq::<char>::empty()
    } else if parts.len() == 1 {
        parts[0]
    } else {
        spec_join_blank_lines(parts.drop_last()) + "\n\n"@ + parts.last()
    }
}

/// Joins the intermediate summaries with a blank line between successive
/// parts — the Map-Reduce payload handed to the final analysis.
pub fn join_blank_lines(parts: &Vec<String>) -> (r: String)
    ensures
        r@ == spec_join_blank_lines(parts@.map_values(|s: String| s@)),
{
    let mut out = String::new();
    let n = parts.len();
    let mut i: usize = 0;
    while i < n
        invariant
            i <= n,
            n == parts@.len(),
            i > 0 ==> out@ == spec_join_blank_lines(
                parts@.map_values(|s: String| s@).take(i as int),
            ),
            i == 0 ==> out@ == Seq::<char>::empty(),
        decreases n - i,
    {
        if i > 0 {
            out.append("\n\n");
        }
        out.append(parts[i].as_str());
        proof {
            let pv = parts@.map_values(|s: String| s@);
            assert(pv.take(i + 1).drop_last() =~= pv.take(i as int));
            assert(pv.take(i + 1).last() == pv[i as int]);
            if i == 0 {
                assert(out@ =~= spec_join_blank_lines(pv.take(1)));
            } else {
                assert(out@ =~= spec_join_blank_lines(pv.take(i + 1)));
            }
        }
        i = i + 1;
    }
    proof {
        let pv = parts@.map_values(|s: String| s@);
        if n == 0 {
            assert(out@ =~= spec_join_blank_lines(pv));
        } else {
            assert(pv.take(n as int) =~= pv);
        }
    }
    out
}

fn week_in_list(v: &Vec<WeekGroup>, w: &WeekGroup) -> (r: bool)
    ensures
        r == v@.map_values(|g: WeekGroup| g@).contains(w@),
{
    let n = v.len();
    let mut i: usize = 0;
    while i < n
        invariant
            i <= n,
            n == v@.len(),
            forall|k: int| 0 <= k < i ==> (#[trigger] v@[k])@ != w@,
        decreases n - i,
    {
        if crate::textutil::str_eq(v[i].as_str(), w.as_str()) {
            proof {
                assert(v@.map_values(|g: WeekGroup| g@)[i as int] == w@);
            }
            return true;
        }
        i = i + 1;
    }
    proof {
        let ms = v@.map_values(|g: WeekGroup| g@);
        if ms.contains(w@) {
            let k = ms.index_of(w@);
            assert(0 <= k < ms.len() && ms[k] == w@);
            assert(v@[k]@ == w@);
            assert(false);
        }
    }
    false
}

// ─── LLM response sanitizing ─────────────────────────────────────────────────

/// A code fence opens at position `i`.
pub open spec fn spec_fence_at(s: Seq<char>, i: int) -> bool {
    crate::textutil::spec_contains_at(s, "```"@, i)
}

/// The text holds a code fence somewhere.
pub open spec fn spec_has_fence(s: Seq<char>) -> bool {
    exists|i: int| #[trigger] spec_fence_at(s, i)
}

/// The rightmost code fence position.
pub open spec fn spec_last_fence(s: Seq<char>) -> int {
    choose|i: int| #[trigger] spec_fence_at(s, i) && (forall|j: int| #[trigger] spec_fence_at(s, j) ==> j <= i)
}

/// The character occurs in the text.
pub open spec fn spec_has_char(s: Seq<char>, c: char) -> bool {
    exists|i: int| 0 <= i < s.len() && (#[trigger] s[i]) == c
}

/// The leftmost occurrence of the character.
pub open spec fn spec_first_ix(s: Seq<char>, c: char) -> int {
    choose|i: int|
        0 <= i < s.len() && (#[trigger] s[i]) == c && (forall|j: int| 0 <= j < i ==> s[j] != c)
}

/// The rightmost occurrence of the character.
pub open spec fn spec_last_ix(s: Seq<char>, c: char) -> int {
    choose|i: int|
        0 <= i < s.len() && (#[trigger] s[i]) == c && (forall|j: int| i < j < s.len() ==> s[j] != c)
}

/// What the sanitizer extracts from an LLM reply: the fenced body when the
/// trimmed reply opens with a code fence, else the outermost brace span when
/// one exists, else the trimmed reply.
pub open spec fn spec_sanitize_json(raw: Seq<char>) -> Seq<char> {
    let t = crate::textutil::trimmed_of(raw);
    if crate::textutil::spec_starts_with(t, "```"@) {
        let body = if crate::textutil::spec_starts_with(t, "```json"@) {
            t.skip(7)
        } else {
            t.skip(3)
        };
        if spec_has_fence(body) {
            crate::textutil::trimmed_of(body.take(spec_last_fence(body)))
        } else {
            crate::textutil::trimmed_of(body)
        }
    } else if spec_has_char(t, '{') && spec_has_char(t, '}') && spec_first_ix(t, '{')
        < spec_last_ix(t, '}') {
        t.subrange(spec_first_ix(t, '{'), spec_last_ix(t, '}') + 1)
    } else {
        t
    }
}

proof fn lemma_last_fence_is(s: Seq<char>, i: int)
    requires
        spec_fence_at(s, i),
        forall|j: int| #[trigger] spec_fence_at(s, j) ==> j <= i,
    ensures
        spec_has_fence(s),
        spec_last_fence(s) == i,
{
    assert(spec_has_fence(s));
    let c = spec_last_fence(s);
    assert(spec_fence_at(s, c) && (forall|j: int| #[trigger] spec_fence_at(s, j) ==> j <= c));
}

proof fn lemma_first_ix_is(s: Seq<char>, c: char, i: int)
    requires
        0 <= i < s.len(),
        s[i] == c,
        forall|j: int| 0 <= j < i ==> s[j] != c,
    ensures
        spec_has_char(s, c),
        spec_first_ix(s, c) == i,
{
    assert(spec_has_char(s, c));
    let x = spec_first_ix(s, c);
    assert(0 <= x < s.len() && s[x] == c && (forall|j: int| 0 <= j < x ==> s[j] != c));
    if x < i {
        assert(s[x] != c);
    }
    if i < x {
        assert(s[i] != c);
    }
}

proof fn lemma_last_ix_is(s: Seq<char>, c: char, i: int)
    requires
        0 <= i < s.len(),
        s[i] == c,
        forall|j: int| i < j < s.len() ==> s[j] != c,
    ensures
        spec_has_char(s, c),
        spec_last_ix(s, c) == i,
{
    assert(spec_has_char(s, c));
    let x = spec_last_ix(s, c);
    assert(0 <= x < s.len() && s[x] == c && (forall|j: int| x < j < s.len() ==> s[j] != c));
    if x < i {
        assert(s[i] != c);
    }
    if i < x {
        assert(s[x] != c);
    }
}

/// The rightmost fence of a character vector.
fn rfind_fence(v: &Vec<char>) -> (r: Option<usize>)
    ensures
        r matches Some(i) ==> spec_has_fence(v@) && spec_last_fence(v@) == i as int
            && spec_fence_at(v@, i as int) && i as int + 3 <= v@.len(),
        r is None ==> !spec_has_fence(v@),
{
    let n = v.len();
    if n < 3 {
        proof {
            if spec_has_fence(v@) {
                let i = choose|i: int| #[trigger] spec_fence_at(v@, i);
                reveal_strlit("```");
                assert(false);
            }
        }
        return None;
    }
    let mut i: usize = n - 2;
    proof {
        reveal_strlit("```");
        assert forall|j: int| #[trigger] spec_fence_at(v@, j) implies j <= n - 3 by {};
    }
    while i > 0
        invariant
            n == v@.len(),
            n >= 3,
            i <= n - 2,
            forall|j: int| #[trigger] spec_fence_at(v@, j) ==> j <= n - 3,
            forall|j: int| i as int <= j ==> !spec_fence_at(v@, j),
        decreases i,
    {
        i = i - 1;
        let hit = v[i] == '`' && v[i + 1] == '`' && v[i + 2] == '`';
        proof {
            reveal_strlit("```");
            if hit {
                assert("```"@.len() == 3);
                assert(v@.subrange(i as int, i + 3) =~= "```"@) by {
                    assert("```"@[0] == '`' && "```"@[1] == '`' && "```"@[2] == '`');
                }
                assert(spec_fence_at(v@, i as int));
            } else {
                if spec_fence_at(v@, i as int) {
                    assert(v@.subrange(i as int, i + 3)[0] == v@[i as int]);
                    assert(v@.subrange(i as int, i + 3)[1] == v@[i + 1]);
                    assert(v@.subrange(i as int, i + 3)[2] == v@[i + 2]);
                    assert("```"@[0] == '`' && "```"@[1] == '`' && "```"@[2] == '`');
                    assert(false);
                }
            }
        }
        if hit {
            proof {
                lemma_last_fence_is(v@, i as int);
                reveal_strlit("```");
            }
            return Some(i);
        }
    }
    proof {
        if spec_has_fence(v@) {
            let j = choose|j: int| #[trigger] spec_fence_at(v@, j);
            assert(j >= 0);
            assert(false);
        }
    }
    None
}

fn find_char_first(v: &Vec<char>, c: char) -> (r: Option<usize>)
    ensures
        r matches Some(i) ==> spec_has_char(v@, c) && spec_first_ix(v@, c) == i as int
            && (i as int) < v@.len(),
        r is None ==> !spec_has_char(v@, c),
{
    let n = v.len();
    let mut i: usize = 0;
    while i < n
        invariant
            i <= n,
            n == v@.len(),
            forall|j: int| 0 <= j < i ==> v@[j] != c,
        decreases n - i,
    {
        if v[i] == c {
            proof {
                lemma_first_ix_is(v@, c, i as int);
            }
            return Some(i);
        }
        i = i + 1;
    }
    proof {
        if spec_has_char(v@, c) {
            let j = choose|j: int| 0 <= j < v@.len() && (#[trigger] v@[j]) == c;
            assert(false);
        }
    }
    None
}

fn find_char_last(v: &Vec<char>, c: char) -> (r: Option<usize>)
    ensures
        r matches Some(i) ==> spec_has_char(v@, c) && spec_last_ix(v@, c) == i as int
            && (i as int) < v@.len(),
        r is None ==> !spec_has_char(v@, c),
{
    let n = v.len();
    let mut i: usize = n;
    while i > 0
        invariant
            i <= n,
            n == v@.len(),
            forall|j: int| i as int <= j < n ==> v@[j] != c,
        decreases i,
    {
        i = i - 1;
        if v[i] == c {
            proof {
                lemma_last_ix_is(v@, c, i as int);
            }
            return Some(i);
        }
    }
    proof {
        if spec_has_char(v@, c) {
            let j = choose|j: int| 0 <= j < v@.len() && (#[trigger] v@[j]) == c;
            assert(false);
        }
    }
    None
}

fn copy_char_range(v: &Vec<char>, from: usize, to: usize) -> (r: Vec<char>)
    requires
        from <= to <= v@.len(),
    ensures
        r@ == v@.subrange(from as int, to as int),
{
    let mut out: Vec<char> = Vec::new();
    let mut i: usize = from;
    proof {
        assert(out@ =~= v@.subrange(from as int, from as int));
    }
    while i < to
        invariant
            from <= i <= to,
            to <= v@.len(),
            out@ == v@.subrange(from as int, i as int),
        decreases to - i,
    {
        out.push(v[i]);
        proof {
            assert(out@ =~= v@.subrange(from as int, i + 1));
        }
        i = i + 1;
    }
    out
}

/// Strips markdown code fences from an LLM reply, or extracts the outermost
/// brace span when extra prose surrounds the JSON object.
pub fn sanitize_json(raw_text: &str) -> (r: String)
    ensures
        r@ == spec_sanitize_json(raw_text@),
{
    let trimmed = crate::textutil::trim_str(raw_text);
    let tv = crate::textutil::str_chars(trimmed);
    if crate::textutil::str_starts_with(trimmed, "```") {
        let json_prefix = crate::textutil::str_starts_with(trimmed, "```json");
        let drop: usize = if json_prefix {
            7
        } else {
            3
        };
        proof {
            reveal_strlit("```");
            reveal_strlit("```json");
        }
        let body = copy_char_range(&tv, drop, tv.len());
        proof {
            assert(body@ =~= trimmed@.skip(drop as int));
        }
        match rfind_fence(&body) {
            Some(e) => {
                let prefix = copy_char_range(&body, 0, e);
                let s = crate::textutil::chars_to_string(&prefix);
                let out = crate::textutil::trim_str(s.as_str()).to_owned();
                proof {
                    assert(prefix@ =~= body@.take(spec_last_fence(body@)));
                }
                out
            },
            None => {
                let s = crate::textutil::chars_to_string(&body);
                let out = crate::textutil::trim_str(s.as_str()).to_owned();
                out
            },
        }
    } else {
        let fb = find_char_first(&tv, '{');
        let lb = find_char_last(&tv, '}');
        let span: Option<(usize, usize)> = match (fb, lb) {
            (Some(a), Some(b)) => {
                if a < b {
                    Some((a, b))
                } else {
                    None
                }
            },
            _ => None,
        };
        match span {
            Some((a, b)) => {
                let piece = copy_char_range(&tv, a, b + 1);
                let r = crate::textutil::chars_to_string(&piece);
                proof {
                    assert(piece@ =~= trimmed@.subrange(
                        spec_first_ix(trimmed@, '{'),
                        spec_last_ix(trimmed@, '}') + 1,
                    ));
                }
                r
            },
            None => {
                trimmed.to_owned()
            },
        }
    }
}

// ─── the mock LLM ────────────────────────────────────────────────────────────

/// Count of text lines, as an iterator over lines would see them: one per
/// newline, plus a final unterminated line.
pub open spec fn spec_line_count(s: Seq<char>) -> int
    decreases s.len(),
{
    if s.len() == 0 {
        0
    } else {
        spec_newline_count(s) + (if s.last() == '\n' {
            0int
        } else {
            1int
        })
    }
}

/// Count of newline characters.
pub open spec fn spec_newline_count(s: Seq<char>) -> int
    decreases s.len(),
{
    if s.len() == 0 {
        0
    } else {
        spec_newline_count(s.drop_last()) + (if s.last() == '\n' {
            1int
        } else {
            0int
        })
    }
}

proof fn lemma_newline_count_bound(s: Seq<char>)
    ensures
        0 <= spec_newline_count(s) <= s.len(),
    decreases s.len(),
{
    if s.len() > 0 {
        lemma_newline_count_bound(s.drop_last());
    }
}

fn count_lines(s: &str) -> (r: usize)
    ensures
        r as int == spec_line_count(s@),
{
    let chars = crate::textutil::str_chars(s);
    let n = chars.len();
    if n == 0 {
        return 0;
    }
    let mut newlines: usize = 0;
    let mut i: usize = 0;
    proof {
        assert(spec_newline_count(s@.take(0)) == 0);
    }
    while i < n
        invariant
            i <= n,
            n == s@.len(),
            chars@ == s@,
            newlines <= i,
            newlines as int == spec_newline_count(s@.take(i as int)),
        decreases n - i,
    {
        proof {
            assert(s@.take(i + 1).drop_last() =~= s@.take(i as int));
            assert(s@.take(i + 1).last() == s@[i as int]);
        }
        if chars[i] == '\n' {
            newlines = newlines + 1;
        }
        i = i + 1;
    }
    proof {
        assert(s@.take(n as int) =~= s@);
    }
    if chars[n - 1] == '\n' {
        newlines
    } else {
        proof {
            lemma_newline_count_bound(s@.drop_last());
            assert(s@.drop_last() =~= s@.take(s@.len() - 1));
            assert(spec_newline_count(s@) == spec_newline_count(s@.drop_last()));
        }
        newlines + 1
    }
}

/// The mock analysis summary for a message count and week.
pub open spec fn spec_mock_summary(count: int, week: Seq<char>) -> Seq<char> {
    "[MOCK] Simulated analysis of "@ + spec_dec_i64(count) + " messages for week "@ + week
        + "."@
}

/// A development LLM that answers without any network call.
pub struct MockAiAdapter {
    /// Simulated network latency in milliseconds; the composition root
    /// sleeps this long around each call.
    pub delay_ms: u64,
}

impl MockAiAdapter {
    /// A mock with the default simulated delay.
    pub fn new() -> (r: MockAiAdapter)
        ensures
            r.delay_ms == 100,
    {
        MockAiAdapter { delay_ms: 100 }
    }

    /// A mock with the given simulated delay.
    pub fn with_delay(delay_ms: u64) -> (r: MockAiAdapter)
        ensures
            r.delay_ms == delay_ms,
    {
        MockAiAdapter { delay_ms }
    }
}

impl Default for MockAiAdapter {
    fn default() -> (r: MockAiAdapter)
        ensures
            r.delay_ms == 100,
    {
        MockAiAdapter::new()
    }
}

impl AiPort for MockAiAdapter {
    /// The mock always succeeds, with a fixed shape: a non-empty summary,
    /// three key topics and two action items.
    fn analyze(&self, chat_id: i64, week_group: &WeekGroup, context_csv: &str) -> (r: Result<
        AnalysisResult,
        DomainError,
    >)
        ensures
            r is Ok,
            r matches Ok(a) ==> a.summary@.len() > 0 && a.key_topics@.len() == 3
                && a.action_items@.len() == 2,
    {
        let lines = count_lines(context_csv);
        let message_count: i64 = if lines > 0 {
            (lines - 1) as i64
        } else {
            0
        };
        let mut summary = String::new();
        let mut summary = summary.concat("[MOCK] Simulated analysis of ");
        let cnt = crate::textutil::fmt_i64(message_count);
        let mut summary = summary.concat(cnt.as_str());
        let mut summary = summary.concat(" messages for week ");
        let mut summary = summary.concat(week_group.as_str());
        let summary = summary.concat(".");
        let mut key_topics: Vec<String> = Vec::new();
        let mut t = String::new();
        let t = t.concat("Mock Topic 1: General Discussion");
        key_topics.push(t);
        let mut t = String::new();
        let t = t.concat("Mock Topic 2: Project Updates");
        key_topics.push(t);
        let mut t = String::new();
        let t = t.concat("Mock Topic 3: Action Planning");
        key_topics.push(t);
        let mut action_items: Vec<ActionItem> = Vec::new();
        let mut d = String::new();
        let d = d.concat("[MOCK] Review the analysis pipeline implementation");
        let mut o = String::new();
        let o = o.concat("Developer");
        let mut dl = String::new();
        let dl = dl.concat("End of week");
        let mut p = String::new();
        let p = p.concat("medium");
        action_items.push(
            ActionItem {
                description: d,
                owner: Option::Some(o),
                deadline: Option::Some(dl),
                priority: Option::Some(p),
            },
        );
        let mut d = String::new();
        let d = d.concat("[MOCK] Configure a real LLM endpoint for production");
        let mut p = String::new();
        let p = p.concat("high");
        action_items.push(
            ActionItem {
                description: d,
                owner: Option::None,
                deadline: Option::None,
                priority: Option::Some(p),
            },
        );
        let analyzed_at = unix_now();
        proof {
            reveal_strlit("[MOCK] Simulated analysis of ");
            assert(summary@.len() > 0);
        }
        Ok(
            AnalysisResult {
                week_group: week_group.duplicate(),
                chat_id,
                summary,
                key_topics,
                action_items,
                analyzed_at,
            },
        )
    }

    /// The mock intermediate summary always succeeds and is never empty.
    fn summarize(&self, context: &str) -> (r: Result<String, DomainError>)
        ensures
            r is Ok,
            r matches Ok(s) ==> s@.len() > 0,
    {
        let lines = count_lines(context);
        let line_count: i64 = if lines > 0 {
            (lines - 1) as i64
        } else {
            0
        };
        let mut s = String::new();
        let mut s = s.concat("[MOCK] Intermediate summary of ");
        let cnt = crate::textutil::fmt_i64(line_count);
        let mut s = s.concat(cnt.as_str());
        let s = s.concat(" lines of chat logs.");
        proof {
            reveal_strlit("[MOCK] Intermediate summary of ");
            assert(s@.len() > 0);
        }
        Ok(s)
    }
}

// ─── auxiliary collaborators ─────────────────────────────────────────────────

/// The sign-in coordinator: holds the platform hash and answers whether the
/// session is authorized. The interactive login flow lives at the
/// composition root.
pub struct AuthService {
    /// The platform API hash used when requesting login codes.
    pub api_hash: String,
}

impl AuthService {
    /// A new sign-in coordinator.
    pub fn new(api_hash: String) -> (r: AuthService)
        ensures
            r.api_hash@ == api_hash@,
    {
        AuthService { api_hash }
    }

    /// Whether the session is already authorized.
    pub fn is_authenticated<P: crate::ports::AuthPort>(&self, auth_port: &P) -> Result<
        bool,
        DomainError,
    > {
        auth_port.is_authenticated()
    }
}

/// A stand-in external processor: records nothing and always succeeds.
pub struct ChatpackProcessor {
    bin_path: Option<String>,
}

impl ChatpackProcessor {
    /// A new processor, optionally pointing at an external binary.
    pub fn new(bin_path: Option<String>) -> (r: ChatpackProcessor) {
        ChatpackProcessor { bin_path }
    }
}

impl ProcessorPort for ChatpackProcessor {
    fn process_chat(&self, chat_id: i64, data_path: &str) -> Result<(), DomainError> {
        Ok(())
    }
}

} // verus!
