use brookshear::ansi::{color_8bit, color_standard, csi_effect, CsiEffect, RichTextPerformer};

#[test]
fn palette_colours() {
    assert_eq!(color_standard(1), (205, 0, 0));
    assert_eq!(color_8bit(12), (92, 92, 255));
    assert_eq!(color_8bit(16), (0, 0, 0));
    assert_eq!(color_8bit(21), (0, 0, 255));
    assert_eq!(color_8bit(196), (255, 0, 0));
    assert_eq!(color_8bit(232), (8, 8, 8));
    assert_eq!(color_8bit(255), (238, 238, 238));
}

#[test]
fn control_sequences_set_colours() {
    assert_eq!(csi_effect(&vec![vec![0]]), CsiEffect::Reset);
    assert_eq!(csi_effect(&vec![vec![31]]), CsiEffect::Foreground(205, 0, 0));
    assert_eq!(csi_effect(&vec![vec![91]]), CsiEffect::Foreground(255, 0, 0));
    assert_eq!(csi_effect(&vec![vec![44]]), CsiEffect::Background(0, 0, 238));
    assert_eq!(csi_effect(&vec![vec![38], vec![5], vec![196]]), CsiEffect::Foreground(255, 0, 0));
    assert_eq!(csi_effect(&vec![vec![48], vec![2], vec![1], vec![2], vec![3]]), CsiEffect::Background(1, 2, 3));
    assert_eq!(csi_effect(&vec![vec![38], vec![7]]), CsiEffect::Nothing);
    assert_eq!(csi_effect(&vec![vec![1]]), CsiEffect::Nothing);
    assert_eq!(csi_effect(&vec![]), CsiEffect::Nothing);
}

#[test]
fn styled_runs_cover_the_text() {
    let mut p = RichTextPerformer::new();
    p.print('a');
    p.print('é');
    p.csi_dispatch(&vec![vec![31]]);
    p.print('b');
    p.execute(b'\n');
    p.execute(0x07);
    p.csi_dispatch(&vec![vec![48], vec![5], vec![196]]);
    p.csi_dispatch(&vec![vec![0]]);
    p.print('c');
    let r = p.consume();
    assert_eq!(r.text, "aéb\nc");
    let runs: Vec<(usize, usize, Option<(u8, u8, u8)>, Option<(u8, u8, u8)>)> =
        r.segments.iter().map(|s| (s.start, s.end, s.fg, s.bg)).collect();
    assert_eq!(
        runs,
        vec![
            (0, 3, None, None),
            (3, 5, Some((205, 0, 0)), None),
            (5, 5, Some((205, 0, 0)), Some((255, 0, 0))),
            (5, 6, None, None),
        ]
    );
}

#[test]
fn no_text_gives_no_runs() {
    let mut p = RichTextPerformer::new();
    p.csi_dispatch(&vec![vec![32]]);
    let r = p.consume();
    assert!(r.text.is_empty());
    assert!(r.segments.is_empty());
}
