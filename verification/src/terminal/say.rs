//! The words this terminal puts to what the practice layer reports. Several sentences name
//! a key only this terminal binds, which is why a notice arrives as a reason at all.

use vstd::prelude::*;

use crate::practice::notice::{spec_good, Notice, Report, ReportV};
use crate::teaching::spec_mode_label;

verus! {

/// The key help shown on `?`.
pub const HELP: &'static str = "点击当前式的子表达式 → 原位变成 ____ → 填值 → Enter 提交；填错不推进，Esc 取消。↑↓/j k 选择，PgUp/PgDn 滚动当前内容；历史使用终端自身滚动，s 短路开关，u 撤销，r 重做，n 下一题（随机练习出新题），p 上一题，q 或 Ctrl+C 退出。";

pub open spec fn spec_notice_sentence(notice: Notice) -> Seq<char> {
    match notice {
        Notice::Start => "点击一处 → ____ → 填值 → Enter。"@,
        Notice::DraftOpen => "在 ____ 处填值，Enter 检查；Esc 取消。"@,
        Notice::FinalPair => "只剩两个值，直接填入本步结果，Enter 检查。"@,
        Notice::NoNextStep => "本题已结束。可以按 n 进入下一题，或按 u 撤销。"@,
        Notice::Undone => "已撤销上一步。"@,
        Notice::Restarted => "已重新开始本题。"@,
        Notice::ModeSwitched(mode) => "已切换："@ + spec_mode_label(mode) + "。进度分别保存。"@,
        Notice::CourseEnded => "已经是本题集的最后一题。"@,
        Notice::ProofStart => "下一行：公式 ; 规则 ; 引用行。Enter 检查，F1 查看规则。"@,
        Notice::ProofUndone => "已撤销上一行，并恢复对应的假设作用域。"@,
    }
}

/// The sentence for a report: a worded one passes through unchanged, a reason is said here.
pub open spec fn spec_sentence(report: ReportV) -> Seq<char> {
    match report {
        ReportV::Taught { message, .. } => message,
        ReportV::Note(message) => message,
        ReportV::Notice(notice) => spec_notice_sentence(notice),
    }
}

/// This terminal's sentence for a reason.
pub fn notice_sentence(notice: Notice) -> (sentence: String)
    ensures
        sentence@ == spec_notice_sentence(notice),
{
    match notice {
        Notice::Start => String::from_str("点击一处 → ____ → 填值 → Enter。"),
        Notice::DraftOpen => String::from_str("在 ____ 处填值，Enter 检查；Esc 取消。"),
        Notice::FinalPair => String::from_str("只剩两个值，直接填入本步结果，Enter 检查。"),
        Notice::NoNextStep => String::from_str("本题已结束。可以按 n 进入下一题，或按 u 撤销。"),
        Notice::Undone => String::from_str("已撤销上一步。"),
        Notice::Restarted => String::from_str("已重新开始本题。"),
        Notice::ModeSwitched(mode) => {
            let mut sentence: String = String::from_str("已切换：");
            sentence.append(mode.label());
            sentence.append("。进度分别保存。");
            sentence
        },
        Notice::CourseEnded => String::from_str("已经是本题集的最后一题。"),
        Notice::ProofStart => String::from_str("下一行：公式 ; 规则 ; 引用行。Enter 检查，F1 查看规则。"),
        Notice::ProofUndone => String::from_str("已撤销上一行，并恢复对应的假设作用域。"),
    }
}

/// The sentence to draw in the feedback line, and whether it is good news. Which reports
/// count as good is the practice layer's rule, so this asks rather than deciding again.
pub fn feedback(report: &Report) -> (shown: (String, bool))
    ensures
        shown.0@ == spec_sentence(report@),
        shown.1 == spec_good(report@),
{
    let sentence: String = match report {
        Report::Taught { message, .. } => message.clone(),
        Report::Note(message) => message.clone(),
        Report::Notice(notice) => notice_sentence(*notice),
    };
    (sentence, report.good())
}

/// A reason is never good news, and a worded report is shown exactly as it was worded.
pub proof fn law_feedback_passes_words_through(report: ReportV)
    ensures
        report is Notice ==> !spec_good(report),
        report matches ReportV::Taught { message, .. } ==> spec_sentence(report) == message,
        report matches ReportV::Note(message) ==> spec_sentence(report) == message,
{
}

/// What stands in the blank before anything is typed.
pub const BLANK: &'static str = "____";

/// The keys the expression view reminds of under the feedback.
pub const EVALUATION_KEYS: &'static str = "Enter确认 Esc取消 ?帮助 Ctrl+C退出";

/// The keys the proof view reminds of.
pub const PROOF_KEYS: &'static str = "Enter检查 F1规则 Ctrl+Z撤销 Ctrl+N/P换题 Ctrl+C退出";

/// The line under a finished expression: the error that ended it, by name (`Some(None)`
/// for an error with no name to type), or, where it ended on a value, what to do next.
pub open spec fn spec_evaluation_end(ended: bool, error: Option<Option<Seq<char>>>) -> Option<Seq<char>> {
    match error {
        Some(name) => Some(
            "完成："@ + match name {
                Some(n) => n,
                None => "异常"@,
            },
        ),
        None => if ended {
            Some("完成 · n 下一题 / u 撤销"@)
        } else {
            None
        },
    }
}

pub fn evaluation_end(ended: bool, error: Option<Option<&str>>) -> (line: Option<String>)
    ensures
        match line {
            Some(l) => Some(l@),
            None => None::<Seq<char>>,
        } == spec_evaluation_end(ended, match error {
            Some(Some(n)) => Some(Some(n@)),
            Some(None) => Some(None),
            None => None,
        }),
{
    match error {
        Some(name) => {
            let mut line: String = String::from_str("完成：");
            match name {
                Some(n) => line.append(n),
                None => line.append("异常"),
            }
            Some(line)
        },
        None => if ended {
            Some(String::from_str("完成 · n 下一题 / u 撤销"))
        } else {
            None
        },
    }
}

/// The proof view's header: the goal, and whether it has been reached.
pub open spec fn spec_proof_header(goal: Seq<char>, finished: bool) -> Seq<char> {
    "目标："@ + goal + if finished {
        " · 完成"@
    } else {
        Seq::empty()
    }
}

pub fn proof_header(goal: &str, finished: bool) -> (header: String)
    ensures
        header@ == spec_proof_header(goal@, finished),
{
    let mut header: String = String::from_str("目标：");
    header.append(goal);
    if finished {
        header.append(" · 完成");
    }
    header
}

/// What a practice run leaves in the terminal when it ends on a proof.
pub open spec fn spec_proof_closing(finished: bool) -> Seq<char> {
    if finished {
        "证明完成。"@
    } else {
        "本次练习结束。"@
    }
}

pub fn proof_closing(finished: bool) -> (text: &'static str)
    ensures
        text@ == spec_proof_closing(finished),
{
    if finished {
        "证明完成。"
    } else {
        "本次练习结束。"
    }
}

/// Why practice cannot start without a terminal, and what to use instead.
pub open spec fn spec_needs_terminal(proof_question: bool) -> Seq<char> {
    if proof_question {
        "自然演绎练习需要交互终端；使用 --check-proof 检查证明文件。"@
    } else {
        "交互练习需要终端。可使用 --list 查看题目，或 --trace 查看逐步演示。"@
    }
}

pub fn needs_terminal(proof_question: bool) -> (text: &'static str)
    ensures
        text@ == spec_needs_terminal(proof_question),
{
    if proof_question {
        "自然演绎练习需要交互终端；使用 --check-proof 检查证明文件。"
    } else {
        "交互练习需要终端。可使用 --list 查看题目，或 --trace 查看逐步演示。"
    }
}

} // verus!
