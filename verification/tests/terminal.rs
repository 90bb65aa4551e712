use stepwise::practice::notice::{Notice, Report};
use stepwise::teaching::EvaluationMode;
use stepwise::terminal::say;
use stepwise::terminal::scroll::Scroll;

#[test]
fn every_reported_reason_keeps_the_sentence_this_terminal_showed_before() {
    for (notice, sentence) in [
        (Notice::Start, "点击一处 → ____ → 填值 → Enter。"),
        (Notice::DraftOpen, "在 ____ 处填值，Enter 检查；Esc 取消。"),
        (
            Notice::FinalPair,
            "只剩两个值，直接填入本步结果，Enter 检查。",
        ),
        (
            Notice::NoNextStep,
            "本题已结束。可以按 n 进入下一题，或按 u 撤销。",
        ),
        (Notice::Undone, "已撤销上一步。"),
        (Notice::Restarted, "已重新开始本题。"),
        (
            Notice::ModeSwitched(EvaluationMode::ShortCircuit),
            "已切换：短路开启。进度分别保存。",
        ),
        (
            Notice::ModeSwitched(EvaluationMode::Eager),
            "已切换：短路关闭 · 全部求值。进度分别保存。",
        ),
        (Notice::CourseEnded, "已经是本题集的最后一题。"),
        (
            Notice::ProofStart,
            "下一行：公式 ; 规则 ; 引用行。Enter 检查，F1 查看规则。",
        ),
        (
            Notice::ProofUndone,
            "已撤销上一行，并恢复对应的假设作用域。",
        ),
    ] {
        let (shown, good): (String, bool) = say::feedback(&Report::Notice(notice));
        assert_eq!(shown, sentence);
        assert!(!good, "a reason is never good news: {notice:?}");
    }
    assert_eq!(
        say::feedback(&Report::Taught {
            message: "正确。".into(),
            accepted: true,
        }),
        ("正确。".into(), true)
    );
    assert_eq!(
        say::feedback(&Report::Note(say::HELP.into())),
        (say::HELP.into(), false)
    );
}

#[test]
fn a_refused_step_is_shown_as_worded_and_is_not_good_news() {
    let (shown, good) = say::feedback(&Report::Taught {
        message: "不对。".into(),
        accepted: false,
    });
    assert_eq!(shown, "不对。");
    assert!(!good);
}

#[test]
fn scrolling_stays_between_the_top_and_the_last_full_page() {
    let mut scroll: Scroll = Scroll::default();
    scroll.update(30, 10);
    assert_eq!(scroll.maximum, 20);
    assert_eq!(scroll.page, 9);
    scroll.down();
    assert_eq!(scroll.offset, 9);
    scroll.down();
    assert_eq!(scroll.offset, 18);
    scroll.down();
    assert_eq!(scroll.offset, 20);
    scroll.up();
    assert_eq!(scroll.offset, 11);
    scroll.update(12, 10);
    assert_eq!(scroll.maximum, 2);
    assert_eq!(scroll.offset, 2);
    scroll.reset();
    assert_eq!(scroll.offset, 0);
    scroll.up();
    assert_eq!(scroll.offset, 0);
}

#[test]
fn a_tiny_area_still_pages_by_one_line_and_the_maximum_saturates() {
    let mut scroll: Scroll = Scroll::default();
    scroll.update(5, 0);
    assert_eq!(scroll.page, 1);
    assert_eq!(scroll.maximum, 5);
    scroll.update(1_000_000, 1);
    assert_eq!(scroll.maximum, u16::MAX);
    assert_eq!(scroll.page, 1);
}

#[test]
fn a_finished_expression_says_how_it_ended() {
    assert_eq!(say::evaluation_end(true, Some(Some("ZeroDivisionError"))), Some("完成：ZeroDivisionError".to_string()));
    assert_eq!(say::evaluation_end(true, Some(None)), Some("完成：异常".to_string()));
    assert_eq!(say::evaluation_end(true, None), Some("完成 · n 下一题 / u 撤销".to_string()));
    assert_eq!(say::evaluation_end(false, None), None);
}

#[test]
fn the_proof_view_names_its_goal_and_how_a_run_ends() {
    assert_eq!(say::proof_header("P → Q", false), "目标：P → Q");
    assert_eq!(say::proof_header("P → Q", true), "目标：P → Q · 完成");
    assert_eq!(say::proof_closing(true), "证明完成。");
    assert_eq!(say::proof_closing(false), "本次练习结束。");
    assert_eq!(say::needs_terminal(true), "自然演绎练习需要交互终端；使用 --check-proof 检查证明文件。");
    assert_eq!(say::needs_terminal(false), "交互练习需要终端。可使用 --list 查看题目，或 --trace 查看逐步演示。");
}
