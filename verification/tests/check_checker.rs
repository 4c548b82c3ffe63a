use clarity_repl::diagnostic::{blue, yellow};
use clarity_repl::session::Session;
use clarity_repl::settings::SessionSettings;

#[test]
fn define_public() {
    let mut settings = SessionSettings::default();
    settings.analysis = vec!["check_checker".to_string()];
    let mut session = Session::new(settings);
    let snippet = "
(define-public (tainted (amount uint))
    (stx-transfer? amount (as-contract tx-sender) tx-sender)
)
"
    .to_string();
    match session.formatted_interpretation(snippet, Some("checker".to_string()), false, None) {
        Ok((output, _)) => {
            assert_eq!(output.len(), 6);
            assert_eq!(
                output[0],
                format!(
                    "checker:3:20: {}: use of potentially unchecked data",
                    yellow("warning")
                )
            );
            assert_eq!(
                output[1],
                "    (stx-transfer? amount (as-contract tx-sender) tx-sender)"
            );
            assert_eq!(output[2], "                   ^~~~~~");
            assert_eq!(
                output[3],
                format!(
                    "checker:2:26: {}: source of untrusted input here",
                    blue("note")
                )
            );
            assert_eq!(output[4], "(define-public (tainted (amount uint))");
            assert_eq!(output[5], "                         ^~~~~~");
        }
        _ => panic!("Expected successful interpretation"),
    };
}

#[test]
fn expr_tainted() {
    let mut settings = SessionSettings::default();
    settings.analysis = vec!["check_checker".to_string()];
    let mut session = Session::new(settings);
    let snippet = "
(define-public (expr-tainted (amount uint))
    (stx-transfer? (+ u10 amount) (as-contract tx-sender) tx-sender)
)
"
    .to_string();
    match session.formatted_interpretation(snippet, Some("checker".to_string()), false, None) {
        Ok((output, _)) => {
            assert_eq!(output.len(), 6);
            assert_eq!(
                output[0],
                format!(
                    "checker:3:20: {}: use of potentially unchecked data",
                    yellow("warning")
                )
            );
            assert_eq!(
                output[1],
                "    (stx-transfer? (+ u10 amount) (as-contract tx-sender) tx-sender)"
            );
            assert_eq!(output[2], "                   ^~~~~~~~~~~~~~");
            assert_eq!(
                output[3],
                format!(
                    "checker:2:31: {}: source of untrusted input here",
                    blue("note")
                )
            );
            assert_eq!(output[4], "(define-public (expr-tainted (amount uint))");
            assert_eq!(output[5], "                              ^~~~~~");
        }
        _ => panic!("Expected successful interpretation"),
    };
}

#[test]
fn let_tainted() {
    let mut settings = SessionSettings::default();
    settings.analysis = vec!["check_checker".to_string()];
    let mut session = Session::new(settings);
    let snippet = "
(define-public (let-tainted (amount uint))
    (let ((x amount))
        (stx-transfer? x (as-contract tx-sender) tx-sender)
    )
)
"
    .to_string();
    match session.formatted_interpretation(snippet, Some("checker".to_string()), false, None) {
        Ok((output, _)) => {
            assert_eq!(output.len(), 6);
            assert_eq!(
                output[0],
                format!(
                    "checker:4:24: {}: use of potentially unchecked data",
                    yellow("warning")
                )
            );
            assert_eq!(
                output[1],
                "        (stx-transfer? x (as-contract tx-sender) tx-sender)"
            );
            assert_eq!(output[2], "                       ^");
            assert_eq!(
                output[3],
                format!(
                    "checker:2:30: {}: source of untrusted input here",
                    blue("note")
                )
            );
            assert_eq!(output[4], "(define-public (let-tainted (amount uint))");
            assert_eq!(output[5], "                             ^~~~~~");
        }
        _ => panic!("Expected successful interpretation"),
    };
}

#[test]
fn filtered() {
    let mut settings = SessionSettings::default();
    settings.analysis = vec!["check_checker".to_string()];
    let mut session = Session::new(settings);
    let snippet = "
(define-public (filtered (amount uint))
    (begin
        (asserts! (< amount u100) (err u100))
        (stx-transfer? amount (as-contract tx-sender) tx-sender)
    )
)
"
    .to_string();
    match session.formatted_interpretation(snippet, Some("checker".to_string()), false, None) {
        Ok((_, result)) => {
            assert_eq!(result.diagnostics.len(), 0);
        }
        _ => panic!("Expected successful interpretation"),
    };
}

#[test]
fn filtered_expr() {
    let mut settings = SessionSettings::default();
    settings.analysis = vec!["check_checker".to_string()];
    let mut session = Session::new(settings);
    let snippet = "
(define-public (filtered-expr (amount uint))
    (begin
        (asserts! (< (+ amount u10) u100) (err u100))
        (stx-transfer? amount (as-contract tx-sender) tx-sender)
    )
)
"
    .to_string();
    match session.formatted_interpretation(snippet, Some("checker".to_string()), false, None) {
        Ok((_, result)) => {
            assert_eq!(result.diagnostics.len(), 0);
        }
        _ => panic!("Expected successful interpretation"),
    };
}

#[test]
fn let_filtered() {
    let mut settings = SessionSettings::default();
    settings.analysis = vec!["check_checker".to_string()];
    let mut session = Session::new(settings);
    let snippet = "
(define-public (let-filtered (amount uint))
    (let ((x amount))
        (asserts! (< x u100) (err u100))
        (stx-transfer? x (as-contract tx-sender) tx-sender)
    )
)
"
    .to_string();
    match session.formatted_interpretation(snippet, Some("checker".to_string()), false, None) {
        Ok((_, result)) => {
            assert_eq!(result.diagnostics.len(), 0);
        }
        _ => panic!("Expected successful interpretation"),
    };
}

#[test]
fn let_filtered_parent() {
    let mut settings = SessionSettings::default();
    settings.analysis = vec!["check_checker".to_string()];
    let mut session = Session::new(settings);
    let snippet = "
(define-public (let-filtered-parent (amount uint))
    (let ((x amount))
        (asserts! (< amount u100) (err u100))
        (stx-transfer? x (as-contract tx-sender) tx-sender)
    )
)
"
    .to_string();
    match session.formatted_interpretation(snippet, Some("checker".to_string()), false, None) {
        Ok((_, result)) => {
            assert_eq!(result.diagnostics.len(), 0);
        }
        _ => panic!("Expected successful interpretation"),
    };
}

#[test]
fn let_tainted_twice() {
    let mut settings = SessionSettings::default();
    settings.analysis = vec!["check_checker".to_string()];
    let mut session = Session::new(settings);
    let snippet = "
(define-public (let-tainted-twice (amount1 uint) (amount2 uint))
    (let ((x (+ amount1 amount2)))
        (stx-transfer? x (as-contract tx-sender) tx-sender)
    )
)
"
    .to_string();
    match session.formatted_interpretation(snippet, Some("checker".to_string()), false, None) {
        Ok((output, _)) => {
            assert_eq!(output.len(), 9);
            assert_eq!(
                output[0],
                format!(
                    "checker:4:24: {}: use of potentially unchecked data",
                    yellow("warning")
                )
            );
            assert_eq!(
                output[1],
                "        (stx-transfer? x (as-contract tx-sender) tx-sender)"
            );
            assert_eq!(output[2], "                       ^");
            assert_eq!(
                output[3],
                format!(
                    "checker:2:36: {}: source of untrusted input here",
                    blue("note")
                )
            );
            assert_eq!(
                output[4],
                "(define-public (let-tainted-twice (amount1 uint) (amount2 uint))"
            );
            assert_eq!(output[5], "                                   ^~~~~~~");
            assert_eq!(
                output[6],
                format!(
                    "checker:2:51: {}: source of untrusted input here",
                    blue("note")
                )
            );
            assert_eq!(
                output[7],
                "(define-public (let-tainted-twice (amount1 uint) (amount2 uint))"
            );
            assert_eq!(
                output[8],
                "                                                  ^~~~~~~"
            );
        }
        _ => panic!("Expected successful interpretation"),
    };
}

#[test]
fn let_tainted_twice_filtered_once() {
    let mut settings = SessionSettings::default();
    settings.analysis = vec!["check_checker".to_string()];
    let mut session = Session::new(settings);
    let snippet = "
(define-public (let-tainted-twice-filtered-once (amount1 uint) (amount2 uint))
    (let ((x (+ amount1 amount2)))
        (asserts! (< amount1 u100) (err u100))
        (stx-transfer? x (as-contract tx-sender) tx-sender)
    )
)
"
    .to_string();
    match session.formatted_interpretation(snippet, Some("checker".to_string()), false, None) {
        Ok((output, _)) => {
            assert_eq!(output.len(), 6);
            assert_eq!(
                output[0],
                format!(
                    "checker:5:24: {}: use of potentially unchecked data",
                    yellow("warning")
                )
            );
            assert_eq!(
                output[1],
                "        (stx-transfer? x (as-contract tx-sender) tx-sender)"
            );
            assert_eq!(output[2], "                       ^");
            assert_eq!(
                output[3],
                format!(
                    "checker:2:65: {}: source of untrusted input here",
                    blue("note")
                )
            );
            assert_eq!(output[4], "(define-public (let-tainted-twice-filtered-once (amount1 uint) (amount2 uint))");
            assert_eq!(
                output[5],
                "                                                                ^~~~~~~"
            );
        }
        _ => panic!("Expected successful interpretation"),
    };
}

#[test]
fn let_tainted_twice_filtered_twice() {
    let mut settings = SessionSettings::default();
    settings.analysis = vec!["check_checker".to_string()];
    let mut session = Session::new(settings);
    let snippet = "
(define-public (let-tainted-twice-filtered-twice (amount1 uint) (amount2 uint))
    (let ((x (+ amount1 amount2)))
        (asserts! (< amount1 u100) (err u100))
        (asserts! (< amount2 u100) (err u101))
        (stx-transfer? x (as-contract tx-sender) tx-sender)
    )
)
"
    .to_string();
    match session.formatted_interpretation(snippet, Some("checker".to_string()), false, None) {
        Ok((_, result)) => {
            assert_eq!(result.diagnostics.len(), 0);
        }
        _ => panic!("Expected successful interpretation"),
    };
}

#[test]
fn let_tainted_twice_filtered_together() {
    let mut settings = SessionSettings::default();
    settings.analysis = vec!["check_checker".to_string()];
    let mut session = Session::new(settings);
    let snippet = "
(define-public (let-tainted-twice-filtered-together (amount1 uint) (amount2 uint))
    (let ((x (+ amount1 amount2)))
        (asserts! (< (+ amount1 amount2) u100) (err u100))
        (stx-transfer? x (as-contract tx-sender) tx-sender)
    )
)
"
    .to_string();
    match session.formatted_interpretation(snippet, Some("checker".to_string()), false, None) {
        Ok((_, result)) => {
            assert_eq!(result.diagnostics.len(), 0);
        }
        _ => panic!("Expected successful interpretation"),
    };
}

#[test]
fn if_filter() {
    let mut settings = SessionSettings::default();
    settings.analysis = vec!["check_checker".to_string()];
    let mut session = Session::new(settings);
    let snippet = "
(define-public (if-filter (amount uint))
    (stx-transfer? (if (< amount u100) amount u100) (as-contract tx-sender) tx-sender)
)
"
    .to_string();
    match session.formatted_interpretation(snippet, Some("checker".to_string()), false, None) {
        Ok((_, result)) => {
            assert_eq!(result.diagnostics.len(), 0);
        }
        _ => panic!("Expected successful interpretation"),
    };
}

#[test]
fn if_not_filtered() {
    let mut settings = SessionSettings::default();
    settings.analysis = vec!["check_checker".to_string()];
    let mut session = Session::new(settings);
    let snippet = "
(define-public (if-not-filtered (amount uint))
    (stx-transfer? (if (< u50 u100) amount u100) (as-contract tx-sender) tx-sender)
)
"
    .to_string();
    match session.formatted_interpretation(snippet, Some("checker".to_string()), false, None) {
        Ok((output, _)) => {
            assert_eq!(output.len(), 6);
            assert_eq!(
                output[0],
                format!(
                    "checker:3:20: {}: use of potentially unchecked data",
                    yellow("warning")
                )
            );
            assert_eq!(output[1], "    (stx-transfer? (if (< u50 u100) amount u100) (as-contract tx-sender) tx-sender)");
            assert_eq!(
                output[2],
                "                   ^~~~~~~~~~~~~~~~~~~~~~~~~~~~~"
            );
            assert_eq!(
                output[3],
                format!(
                    "checker:2:34: {}: source of untrusted input here",
                    blue("note")
                )
            );
            assert_eq!(output[4], "(define-public (if-not-filtered (amount uint))");
            assert_eq!(output[5], "                                 ^~~~~~");
        }
        _ => panic!("Expected successful interpretation"),
    };
}

#[test]
fn and_tainted() {
    let mut settings = SessionSettings::default();
    settings.analysis = vec!["check_checker".to_string()];
    let mut session = Session::new(settings);
    let snippet = "
(define-public (and-tainted (amount uint))
    (ok (and
        (unwrap-panic (stx-transfer? amount (as-contract tx-sender) tx-sender))
    ))
)
"
    .to_string();
    match session.formatted_interpretation(snippet, Some("checker".to_string()), false, None) {
        Ok((output, _)) => {
            assert_eq!(output.len(), 6);
            assert_eq!(
                output[0],
                format!(
                    "checker:4:38: {}: use of potentially unchecked data",
                    yellow("warning")
                )
            );
            assert_eq!(output[1], "        (unwrap-panic (stx-transfer? amount (as-contract tx-sender) tx-sender))");
            assert_eq!(output[2], "                                     ^~~~~~");
            assert_eq!(
                output[3],
                format!(
                    "checker:2:30: {}: source of untrusted input here",
                    blue("note")
                )
            );
            assert_eq!(output[4], "(define-public (and-tainted (amount uint))");
            assert_eq!(output[5], "                             ^~~~~~");
        }
        _ => panic!("Expected successful interpretation"),
    };
}

#[test]
fn and_filter() {
    let mut settings = SessionSettings::default();
    settings.analysis = vec!["check_checker".to_string()];
    let mut session = Session::new(settings);
    let snippet = "
(define-public (and-filter (amount uint))
    (ok (and
        (< amount u100)
        (unwrap-panic (stx-transfer? amount (as-contract tx-sender) tx-sender))
    ))
)
"
    .to_string();
    match session.formatted_interpretation(snippet, Some("checker".to_string()), false, None) {
        Ok((_, result)) => {
            assert_eq!(result.diagnostics.len(), 0);
        }
        _ => panic!("Expected successful interpretation"),
    };
}

#[test]
fn and_filter_after() {
    let mut settings = SessionSettings::default();
    settings.analysis = vec!["check_checker".to_string()];
    let mut session = Session::new(settings);
    let snippet = "
(define-public (and-filter-after (amount uint))
    (ok (and
        (unwrap-panic (stx-transfer? amount (as-contract tx-sender) tx-sender))
        (< amount u100)
    ))
)
"
    .to_string();
    match session.formatted_interpretation(snippet, Some("checker".to_string()), false, None) {
        Ok((output, _)) => {
            assert_eq!(output.len(), 6);
            assert_eq!(
                output[0],
                format!(
                    "checker:4:38: {}: use of potentially unchecked data",
                    yellow("warning")
                )
            );
            assert_eq!(output[1], "        (unwrap-panic (stx-transfer? amount (as-contract tx-sender) tx-sender))");
            assert_eq!(output[2], "                                     ^~~~~~");
            assert_eq!(
                output[3],
                format!(
                    "checker:2:35: {}: source of untrusted input here",
                    blue("note")
                )
            );
            assert_eq!(output[4], "(define-public (and-filter-after (amount uint))");
            assert_eq!(output[5], "                                  ^~~~~~");
        }
        _ => panic!("Expected successful interpretation"),
    };
}

#[test]
fn or_tainted() {
    let mut settings = SessionSettings::default();
    settings.analysis = vec!["check_checker".to_string()];
    let mut session = Session::new(settings);
    let snippet = "
(define-public (or-tainted (amount uint))
    (ok (or
        (unwrap-panic (stx-transfer? amount (as-contract tx-sender) tx-sender))
    ))
)
"
    .to_string();
    match session.formatted_interpretation(snippet, Some("checker".to_string()), false, None) {
        Ok((output, _)) => {
            assert_eq!(output.len(), 6);
            assert_eq!(
                output[0],
                format!(
                    "checker:4:38: {}: use of potentially unchecked data",
                    yellow("warning")
                )
            );
            assert_eq!(output[1], "        (unwrap-panic (stx-transfer? amount (as-contract tx-sender) tx-sender))");
            assert_eq!(output[2], "                                     ^~~~~~");
            assert_eq!(
                output[3],
                format!(
                    "checker:2:29: {}: source of untrusted input here",
                    blue("note")
                )
            );
            assert_eq!(output[4], "(define-public (or-tainted (amount uint))");
            assert_eq!(output[5], "                            ^~~~~~");
        }
        _ => panic!("Expected successful interpretation"),
    };
}

#[test]
fn or_filter() {
    let mut settings = SessionSettings::default();
    settings.analysis = vec!["check_checker".to_string()];
    let mut session = Session::new(settings);
    let snippet = "
(define-public (or-filter (amount uint))
    (ok (or
        (< amount u100)
        (unwrap-panic (stx-transfer? amount (as-contract tx-sender) tx-sender))
    ))
)
"
    .to_string();
    match session.formatted_interpretation(snippet, Some("checker".to_string()), false, None) {
        Ok((_, result)) => {
            assert_eq!(result.diagnostics.len(), 0);
        }
        _ => panic!("Expected successful interpretation"),
    };
}

#[test]
fn or_filter_after() {
    let mut settings = SessionSettings::default();
    settings.analysis = vec!["check_checker".to_string()];
    let mut session = Session::new(settings);
    let snippet = "
(define-public (or-filter-after (amount uint))
    (ok (or
        (unwrap-panic (stx-transfer? amount (as-contract tx-sender) tx-sender))
        (< amount u100)
    ))
)
"
    .to_string();
    match session.formatted_interpretation(snippet, Some("checker".to_string()), false, None) {
        Ok((output, _)) => {
            assert_eq!(output.len(), 6);
            assert_eq!(
                output[0],
                format!(
                    "checker:4:38: {}: use of potentially unchecked data",
                    yellow("warning")
                )
            );
            assert_eq!(output[1], "        (unwrap-panic (stx-transfer? amount (as-contract tx-sender) tx-sender))");
            assert_eq!(output[2], "                                     ^~~~~~");
            assert_eq!(
                output[3],
                format!(
                    "checker:2:34: {}: source of untrusted input here",
                    blue("note")
                )
            );
            assert_eq!(output[4], "(define-public (or-filter-after (amount uint))");
            assert_eq!(output[5], "                                 ^~~~~~");
        }
        _ => panic!("Expected successful interpretation"),
    };
}

#[test]
fn stx_burn_senders() {
    let mut settings = SessionSettings::default();
    settings.analysis = vec!["check_checker".to_string()];
    let mut session = Session::new(settings);
    let snippet = "
(define-public (stx-burn-senders (amount uint))
    (stx-burn? amount tx-sender)
)
"
    .to_string();
    match session.formatted_interpretation(snippet, Some("checker".to_string()), false, None) {
        Ok((_, result)) => {
            assert_eq!(result.diagnostics.len(), 0);
        }
        _ => panic!("Expected successful interpretation"),
    };
}

#[test]
fn tainted_stx_burn() {
    let mut settings = SessionSettings::default();
    settings.analysis = vec!["check_checker".to_string()];
    let mut session = Session::new(settings);
    let snippet = "
(define-public (tainted-stx-burn (amount uint))
    (stx-burn? amount (as-contract tx-sender))
)
"
    .to_string();
    match session.formatted_interpretation(snippet, Some("checker".to_string()), false, None) {
        Ok((output, _)) => {
            assert_eq!(output.len(), 6);
            assert_eq!(
                output[0],
                format!(
                    "checker:3:16: {}: use of potentially unchecked data",
                    yellow("warning")
                )
            );
            assert_eq!(output[1], "    (stx-burn? amount (as-contract tx-sender))");
            assert_eq!(output[2], "               ^~~~~~");
            assert_eq!(
                output[3],
                format!(
                    "checker:2:35: {}: source of untrusted input here",
                    blue("note")
                )
            );
            assert_eq!(output[4], "(define-public (tainted-stx-burn (amount uint))");
            assert_eq!(output[5], "                                  ^~~~~~");
        }
        _ => panic!("Expected successful interpretation"),
    };
}

#[test]
fn stx_transfer_senders() {
    let mut settings = SessionSettings::default();
    settings.analysis = vec!["check_checker".to_string()];
    let mut session = Session::new(settings);
    let snippet = "
(define-public (stx-transfer-senders (amount uint) (recipient principal))
    (stx-transfer? amount tx-sender recipient)
)
"
    .to_string();
    match session.formatted_interpretation(snippet, Some("checker".to_string()), false, None) {
        Ok((_, result)) => {
            assert_eq!(result.diagnostics.len(), 0);
        }
        _ => panic!("Expected successful interpretation"),
    };
}

#[test]
fn tainted_ft_burn() {
    let mut settings = SessionSettings::default();
    settings.analysis = vec!["check_checker".to_string()];
    let mut session = Session::new(settings);
    let snippet = "
(define-fungible-token stackaroo)
(define-public (tainted-ft-burn (amount uint))
    (ft-burn? stackaroo amount (as-contract tx-sender))
)
"
    .to_string();
    match session.formatted_interpretation(snippet, Some("checker".to_string()), false, None) {
        Ok((output, _)) => {
            assert_eq!(output.len(), 6);
            assert_eq!(
                output[0],
                format!(
                    "checker:4:25: {}: use of potentially unchecked data",
                    yellow("warning")
                )
            );
            assert_eq!(
                output[1],
                "    (ft-burn? stackaroo amount (as-contract tx-sender))"
            );
            assert_eq!(output[2], "                        ^~~~~~");
            assert_eq!(
                output[3],
                format!(
                    "checker:3:34: {}: source of untrusted input here",
                    blue("note")
                )
            );
            assert_eq!(output[4], "(define-public (tainted-ft-burn (amount uint))");
            assert_eq!(output[5], "                                 ^~~~~~");
        }
        _ => panic!("Expected successful interpretation"),
    };
}

#[test]
fn ft_burn_senders() {
    let mut settings = SessionSettings::default();
    settings.analysis = vec!["check_checker".to_string()];
    let mut session = Session::new(settings);
    let snippet = "
(define-fungible-token stackaroo)
(define-public (ft-burn-senders (amount uint))
    (ft-burn? stackaroo amount tx-sender)
)
"
    .to_string();
    match session.formatted_interpretation(snippet, Some("checker".to_string()), false, None) {
        Ok((_, result)) => {
            assert_eq!(result.diagnostics.len(), 0);
        }
        _ => panic!("Expected successful interpretation"),
    };
}

#[test]
fn tainted_ft_transfer() {
    let mut settings = SessionSettings::default();
    settings.analysis = vec!["check_checker".to_string()];
    let mut session = Session::new(settings);
    let snippet = "
(define-fungible-token stackaroo)
(define-public (tainted-ft-transfer (amount uint))
    (ft-transfer? stackaroo amount (as-contract tx-sender) tx-sender)
)
"
    .to_string();
    match session.formatted_interpretation(snippet, Some("checker".to_string()), false, None) {
        Ok((output, _)) => {
            assert_eq!(output.len(), 6);
            assert_eq!(
                output[0],
                format!(
                    "checker:4:29: {}: use of potentially unchecked data",
                    yellow("warning")
                )
            );
            assert_eq!(
                output[1],
                "    (ft-transfer? stackaroo amount (as-contract tx-sender) tx-sender)"
            );
            assert_eq!(output[2], "                            ^~~~~~");
            assert_eq!(
                output[3],
                format!(
                    "checker:3:38: {}: source of untrusted input here",
                    blue("note")
                )
            );
            assert_eq!(
                output[4],
                "(define-public (tainted-ft-transfer (amount uint))"
            );
            assert_eq!(output[5], "                                     ^~~~~~");
        }
        _ => panic!("Expected successful interpretation"),
    };
}

#[test]
fn ft_transfer_senders() {
    let mut settings = SessionSettings::default();
    settings.analysis = vec!["check_checker".to_string()];
    let mut session = Session::new(settings);
    let snippet = "
(define-fungible-token stackaroo)
(define-public (ft-transfer-senders (amount uint) (recipient principal))
    (ft-transfer? stackaroo amount tx-sender recipient)
)
"
    .to_string();
    match session.formatted_interpretation(snippet, Some("checker".to_string()), false, None) {
        Ok((_, result)) => {
            assert_eq!(result.diagnostics.len(), 0);
        }
        _ => panic!("Expected successful interpretation"),
    };
}

#[test]
fn tainted_ft_mint() {
    let mut settings = SessionSettings::default();
    settings.analysis = vec!["check_checker".to_string()];
    let mut session = Session::new(settings);
    let snippet = "
(define-fungible-token stackaroo)
(define-public (tainted-ft-mint (amount uint))
    (ft-mint? stackaroo amount (as-contract tx-sender))
)
"
    .to_string();
    match session.formatted_interpretation(snippet, Some("checker".to_string()), false, None) {
        Ok((output, _)) => {
            assert_eq!(output.len(), 6);
            assert_eq!(
                output[0],
                format!(
                    "checker:4:25: {}: use of potentially unchecked data",
                    yellow("warning")
                )
            );
            assert_eq!(
                output[1],
                "    (ft-mint? stackaroo amount (as-contract tx-sender))"
            );
            assert_eq!(output[2], "                        ^~~~~~");
            assert_eq!(
                output[3],
                format!(
                    "checker:3:34: {}: source of untrusted input here",
                    blue("note")
                )
            );
            assert_eq!(output[4], "(define-public (tainted-ft-mint (amount uint))");
            assert_eq!(output[5], "                                 ^~~~~~");
        }
        _ => panic!("Expected successful interpretation"),
    };
}

#[test]
fn tainted_nft_burn() {
    let mut settings = SessionSettings::default();
    settings.analysis = vec!["check_checker".to_string()];
    let mut session = Session::new(settings);
    let snippet = "
(define-non-fungible-token stackaroo uint)
(define-public (tainted-nft-burn (identifier uint))
    (nft-burn? stackaroo identifier (as-contract tx-sender))
)
"
    .to_string();
    match session.formatted_interpretation(snippet, Some("checker".to_string()), false, None) {
        Ok((output, _)) => {
            assert_eq!(output.len(), 6);
            assert_eq!(
                output[0],
                format!(
                    "checker:4:26: {}: use of potentially unchecked data",
                    yellow("warning")
                )
            );
            assert_eq!(
                output[1],
                "    (nft-burn? stackaroo identifier (as-contract tx-sender))"
            );
            assert_eq!(output[2], "                         ^~~~~~~~~~");
            assert_eq!(
                output[3],
                format!(
                    "checker:3:35: {}: source of untrusted input here",
                    blue("note")
                )
            );
            assert_eq!(
                output[4],
                "(define-public (tainted-nft-burn (identifier uint))"
            );
            assert_eq!(output[5], "                                  ^~~~~~~~~~");
        }
        _ => panic!("Expected successful interpretation"),
    };
}

#[test]
fn nft_burn_senders() {
    let mut settings = SessionSettings::default();
    settings.analysis = vec!["check_checker".to_string()];
    let mut session = Session::new(settings);
    let snippet = "
(define-non-fungible-token stackaroo uint)
(define-public (nft-burn-senders (identifier uint))
    (nft-burn? stackaroo identifier tx-sender)
)
"
    .to_string();
    match session.formatted_interpretation(snippet, Some("checker".to_string()), false, None) {
        Ok((_, result)) => {
            assert_eq!(result.diagnostics.len(), 0);
        }
        _ => panic!("Expected successful interpretation"),
    };
}

#[test]
fn tainted_nft_transfer() {
    let mut settings = SessionSettings::default();
    settings.analysis = vec!["check_checker".to_string()];
    let mut session = Session::new(settings);
    let snippet = "
(define-non-fungible-token stackaroo uint)
(define-public (tainted-nft-transfer (identifier uint))
    (nft-transfer? stackaroo identifier (as-contract tx-sender) tx-sender)
)
"
    .to_string();
    match session.formatted_interpretation(snippet, Some("checker".to_string()), false, None) {
        Ok((output, _)) => {
            assert_eq!(output.len(), 6);
            assert_eq!(
                output[0],
                format!(
                    "checker:4:30: {}: use of potentially unchecked data",
                    yellow("warning")
                )
            );
            assert_eq!(
                output[1],
                "    (nft-transfer? stackaroo identifier (as-contract tx-sender) tx-sender)"
            );
            assert_eq!(output[2], "                             ^~~~~~~~~~");
            assert_eq!(
                output[3],
                format!(
                    "checker:3:39: {}: source of untrusted input here",
                    blue("note")
                )
            );
            assert_eq!(
                output[4],
                "(define-public (tainted-nft-transfer (identifier uint))"
            );
            assert_eq!(
                output[5],
                "                                      ^~~~~~~~~~"
            );
        }
        _ => panic!("Expected successful interpretation"),
    };
}

#[test]
fn nft_transfer_senders() {
    let mut settings = SessionSettings::default();
    settings.analysis = vec!["check_checker".to_string()];
    let mut session = Session::new(settings);
    let snippet = "
(define-non-fungible-token stackaroo uint)
(define-public (nft-transfer-senders (identifier uint) (recipient principal))
    (nft-transfer? stackaroo identifier tx-sender recipient)
)
"
    .to_string();
    match session.formatted_interpretation(snippet, Some("checker".to_string()), false, None) {
        Ok((_, result)) => {
            assert_eq!(result.diagnostics.len(), 0);
        }
        _ => panic!("Expected successful interpretation"),
    };
}

#[test]
fn tainted_nft_mint() {
    let mut settings = SessionSettings::default();
    settings.analysis = vec!["check_checker".to_string()];
    let mut session = Session::new(settings);
    let snippet = "
(define-non-fungible-token stackaroo uint)
(define-public (tainted-nft-mint (identifier uint))
    (nft-mint? stackaroo identifier (as-contract tx-sender))
)
"
    .to_string();
    match session.formatted_interpretation(snippet, Some("checker".to_string()), false, None) {
        Ok((output, _)) => {
            assert_eq!(output.len(), 6);
            assert_eq!(
                output[0],
                format!(
                    "checker:4:26: {}: use of potentially unchecked data",
                    yellow("warning")
                )
            );
            assert_eq!(
                output[1],
                "    (nft-mint? stackaroo identifier (as-contract tx-sender))"
            );
            assert_eq!(output[2], "                         ^~~~~~~~~~");
            assert_eq!(
                output[3],
                format!(
                    "checker:3:35: {}: source of untrusted input here",
                    blue("note")
                )
            );
            assert_eq!(
                output[4],
                "(define-public (tainted-nft-mint (identifier uint))"
            );
            assert_eq!(output[5], "                                  ^~~~~~~~~~");
        }
        _ => panic!("Expected successful interpretation"),
    };
}

#[test]
fn tainted_var_set() {
    let mut settings = SessionSettings::default();
    settings.analysis = vec!["check_checker".to_string()];
    let mut session = Session::new(settings);
    let snippet = "
(define-data-var myvar uint u0)
(define-public (tainted-var-set (amount uint))
    (ok (var-set myvar amount))
)
"
    .to_string();
    match session.formatted_interpretation(snippet, Some("checker".to_string()), false, None) {
        Ok((output, _)) => {
            assert_eq!(output.len(), 6);
            assert_eq!(
                output[0],
                format!(
                    "checker:4:24: {}: use of potentially unchecked data",
                    yellow("warning")
                )
            );
            assert_eq!(output[1], "    (ok (var-set myvar amount))");
            assert_eq!(output[2], "                       ^~~~~~");
            assert_eq!(
                output[3],
                format!(
                    "checker:3:34: {}: source of untrusted input here",
                    blue("note")
                )
            );
            assert_eq!(output[4], "(define-public (tainted-var-set (amount uint))");
            assert_eq!(output[5], "                                 ^~~~~~");
        }
        _ => panic!("Expected successful interpretation"),
    };
}

#[test]
fn tainted_map_set() {
    let mut settings = SessionSettings::default();
    settings.analysis = vec!["check_checker".to_string()];
    let mut session = Session::new(settings);
    let snippet = "
(define-map mymap { key-name-1: uint } { val-name-1: int })
(define-public (tainted-map-set (key uint) (value int))
    (ok (map-set mymap {key-name-1: key} {val-name-1: value}))
)
"
    .to_string();
    match session.formatted_interpretation(snippet, Some("checker".to_string()), false, None) {
        Ok((output, _)) => {
            assert_eq!(output.len(), 12);
            assert_eq!(
                output[0],
                format!(
                    "checker:4:37: {}: use of potentially unchecked data",
                    yellow("warning")
                )
            );
            assert_eq!(
                output[1],
                "    (ok (map-set mymap {key-name-1: key} {val-name-1: value}))"
            );
            assert_eq!(output[2], "                                    ^~~");
            assert_eq!(
                output[3],
                format!(
                    "checker:3:34: {}: source of untrusted input here",
                    blue("note")
                )
            );
            assert_eq!(
                output[4],
                "(define-public (tainted-map-set (key uint) (value int))"
            );
            assert_eq!(output[5], "                                 ^~~");
            assert_eq!(
                output[6],
                format!(
                    "checker:4:55: {}: use of potentially unchecked data",
                    yellow("warning")
                )
            );
            assert_eq!(
                output[7],
                "    (ok (map-set mymap {key-name-1: key} {val-name-1: value}))"
            );
            assert_eq!(
                output[8],
                "                                                      ^~~~~"
            );
            assert_eq!(
                output[9],
                format!(
                    "checker:3:45: {}: source of untrusted input here",
                    blue("note")
                )
            );
            assert_eq!(
                output[10],
                "(define-public (tainted-map-set (key uint) (value int))"
            );
            assert_eq!(
                output[11],
                "                                            ^~~~~"
            );
        }
        _ => panic!("Expected successful interpretation"),
    };
}

#[test]
fn tainted_map_set2() {
    let mut settings = SessionSettings::default();
    settings.analysis = vec!["check_checker".to_string()];
    let mut session = Session::new(settings);
    let snippet = "
(define-map mymap uint int)
(define-public (tainted-map-set (key uint) (value int))
    (ok (map-set mymap key value))
)
"
    .to_string();
    match session.formatted_interpretation(snippet, Some("checker".to_string()), false, None) {
        Ok((output, _)) => {
            assert_eq!(output.len(), 12);
            assert_eq!(
                output[0],
                format!(
                    "checker:4:24: {}: use of potentially unchecked data",
                    yellow("warning")
                )
            );
            assert_eq!(output[1], "    (ok (map-set mymap key value))");
            assert_eq!(output[2], "                       ^~~");
            assert_eq!(
                output[3],
                format!(
                    "checker:3:34: {}: source of untrusted input here",
                    blue("note")
                )
            );
            assert_eq!(
                output[4],
                "(define-public (tainted-map-set (key uint) (value int))"
            );
            assert_eq!(output[5], "                                 ^~~");
            assert_eq!(
                output[6],
                format!(
                    "checker:4:28: {}: use of potentially unchecked data",
                    yellow("warning")
                )
            );
            assert_eq!(output[7], "    (ok (map-set mymap key value))");
            assert_eq!(output[8], "                           ^~~~~");
            assert_eq!(
                output[9],
                format!(
                    "checker:3:45: {}: source of untrusted input here",
                    blue("note")
                )
            );
            assert_eq!(
                output[10],
                "(define-public (tainted-map-set (key uint) (value int))"
            );
            assert_eq!(
                output[11],
                "                                            ^~~~~"
            );
        }
        _ => panic!("Expected successful interpretation"),
    };
}

#[test]
fn tainted_map_insert() {
    let mut settings = SessionSettings::default();
    settings.analysis = vec!["check_checker".to_string()];
    let mut session = Session::new(settings);
    let snippet = "
(define-map mymap { key-name-1: uint } { val-name-1: int })
(define-public (tainted-map-insert (key uint) (value int))
    (ok (map-insert mymap {key-name-1: key} {val-name-1: value}))
)
"
    .to_string();
    match session.formatted_interpretation(snippet, Some("checker".to_string()), false, None) {
        Ok((output, _)) => {
            assert_eq!(output.len(), 12);
            assert_eq!(
                output[0],
                format!(
                    "checker:4:40: {}: use of potentially unchecked data",
                    yellow("warning")
                )
            );
            assert_eq!(
                output[1],
                "    (ok (map-insert mymap {key-name-1: key} {val-name-1: value}))"
            );
            assert_eq!(output[2], "                                       ^~~");
            assert_eq!(
                output[3],
                format!(
                    "checker:3:37: {}: source of untrusted input here",
                    blue("note")
                )
            );
            assert_eq!(
                output[4],
                "(define-public (tainted-map-insert (key uint) (value int))"
            );
            assert_eq!(output[5], "                                    ^~~");
            assert_eq!(
                output[6],
                format!(
                    "checker:4:58: {}: use of potentially unchecked data",
                    yellow("warning")
                )
            );
            assert_eq!(
                output[7],
                "    (ok (map-insert mymap {key-name-1: key} {val-name-1: value}))"
            );
            assert_eq!(
                output[8],
                "                                                         ^~~~~"
            );
            assert_eq!(
                output[9],
                format!(
                    "checker:3:48: {}: source of untrusted input here",
                    blue("note")
                )
            );
            assert_eq!(
                output[10],
                "(define-public (tainted-map-insert (key uint) (value int))"
            );
            assert_eq!(
                output[11],
                "                                               ^~~~~"
            );
        }
        _ => panic!("Expected successful interpretation"),
    };
}

#[test]
fn tainted_map_insert2() {
    let mut settings = SessionSettings::default();
    settings.analysis = vec!["check_checker".to_string()];
    let mut session = Session::new(settings);
    let snippet = "
(define-map mymap uint int)
(define-public (tainted-map-insert (key uint) (value int))
    (ok (map-insert mymap key value))
)
"
    .to_string();
    match session.formatted_interpretation(snippet, Some("checker".to_string()), false, None) {
        Ok((output, _)) => {
            assert_eq!(output.len(), 12);
            assert_eq!(
                output[0],
                format!(
                    "checker:4:27: {}: use of potentially unchecked data",
                    yellow("warning")
                )
            );
            assert_eq!(output[1], "    (ok (map-insert mymap key value))");
            assert_eq!(output[2], "                          ^~~");
            assert_eq!(
                output[3],
                format!(
                    "checker:3:37: {}: source of untrusted input here",
                    blue("note")
                )
            );
            assert_eq!(
                output[4],
                "(define-public (tainted-map-insert (key uint) (value int))"
            );
            assert_eq!(output[5], "                                    ^~~");
            assert_eq!(
                output[6],
                format!(
                    "checker:4:31: {}: use of potentially unchecked data",
                    yellow("warning")
                )
            );
            assert_eq!(output[7], "    (ok (map-insert mymap key value))");
            assert_eq!(output[8], "                              ^~~~~");
            assert_eq!(
                output[9],
                format!(
                    "checker:3:48: {}: source of untrusted input here",
                    blue("note")
                )
            );
            assert_eq!(
                output[10],
                "(define-public (tainted-map-insert (key uint) (value int))"
            );
            assert_eq!(
                output[11],
                "                                               ^~~~~"
            );
        }
        _ => panic!("Expected successful interpretation"),
    };
}

#[test]
fn tainted_map_delete() {
    let mut settings = SessionSettings::default();
    settings.analysis = vec!["check_checker".to_string()];
    let mut session = Session::new(settings);
    let snippet = "
(define-map mymap { key-name-1: uint } { val-name-1: int })
(define-public (tainted-map-delete (key uint))
    (ok (map-delete mymap {key-name-1: key}))
)
"
    .to_string();
    match session.formatted_interpretation(snippet, Some("checker".to_string()), false, None) {
        Ok((output, _)) => {
            assert_eq!(output.len(), 6);
            assert_eq!(
                output[0],
                format!(
                    "checker:4:40: {}: use of potentially unchecked data",
                    yellow("warning")
                )
            );
            assert_eq!(output[1], "    (ok (map-delete mymap {key-name-1: key}))");
            assert_eq!(output[2], "                                       ^~~");
            assert_eq!(
                output[3],
                format!(
                    "checker:3:37: {}: source of untrusted input here",
                    blue("note")
                )
            );
            assert_eq!(output[4], "(define-public (tainted-map-delete (key uint))");
            assert_eq!(output[5], "                                    ^~~");
        }
        _ => panic!("Expected successful interpretation"),
    };
}

#[test]
fn dynamic_contract_call() {
    let mut settings = SessionSettings::default();
    settings.analysis = vec!["check_checker".to_string()];
    let mut session = Session::new(settings);
    let snippet = "
(define-trait multiplier
    ((multiply (uint uint) (response uint uint)))
)
(define-public (my-multiply (untrusted <multiplier>) (a uint) (b uint))
    (contract-call? untrusted multiply a b)
)
"
    .to_string();
    match session.formatted_interpretation(snippet, Some("checker".to_string()), false, None) {
        Ok((output, _)) => {
            assert_eq!(output.len(), 6);
            assert_eq!(
                output[0],
                format!(
                    "checker:6:21: {}: use of potentially unchecked data",
                    yellow("warning")
                )
            );
            assert_eq!(output[1], "    (contract-call? untrusted multiply a b)");
            assert_eq!(output[2], "                    ^~~~~~~~~");
            assert_eq!(
                output[3],
                format!(
                    "checker:5:30: {}: source of untrusted input here",
                    blue("note")
                )
            );
            assert_eq!(
                output[4],
                "(define-public (my-multiply (untrusted <multiplier>) (a uint) (b uint))"
            );
            assert_eq!(output[5], "                             ^~~~~~~~~");
        }
        _ => panic!("Expected successful interpretation"),
    };
}

#[test]
fn check_private() {
    let mut settings = SessionSettings::default();
    settings.analysis = vec!["check_checker".to_string()];
    let mut session = Session::new(settings);
    let snippet = "
(define-private (my-transfer (amount uint))
    (stx-transfer? amount (as-contract tx-sender) tx-sender)
)
"
    .to_string();
    match session.formatted_interpretation(snippet, Some("checker".to_string()), false, None) {
        Ok((_, result)) => {
            assert_eq!(result.diagnostics.len(), 0);
        }
        _ => panic!("Expected successful interpretation"),
    };
}

#[test]
fn check_private_call() {
    let mut settings = SessionSettings::default();
    settings.analysis = vec!["check_checker".to_string()];
    let mut session = Session::new(settings);
    let snippet = "
(define-private (my-transfer (amount uint))
    (ok true)
)
(define-public (tainted (amount uint))
    (my-transfer amount)
)
"
    .to_string();
    match session.formatted_interpretation(snippet, Some("checker".to_string()), false, None) {
        Ok((output, _)) => {
            assert_eq!(output.len(), 6);
            assert_eq!(
                output[0],
                format!(
                    "checker:6:18: {}: use of potentially unchecked data",
                    yellow("warning")
                )
            );
            assert_eq!(output[1], "    (my-transfer amount)");
            assert_eq!(output[2], "                 ^~~~~~");
            assert_eq!(
                output[3],
                format!(
                    "checker:5:26: {}: source of untrusted input here",
                    blue("note")
                )
            );
            assert_eq!(output[4], "(define-public (tainted (amount uint))");
            assert_eq!(output[5], "                         ^~~~~~");
        }
        _ => panic!("Expected successful interpretation"),
    };
}

#[test]
fn check_private_after() {
    let mut settings = SessionSettings::default();
    settings.analysis = vec!["check_checker".to_string()];
    let mut session = Session::new(settings);
    let snippet = "
(define-public (tainted (amount uint))
    (my-func amount)
)
(define-private (my-func (amount uint))
    (ok true)
)
"
    .to_string();
    match session.formatted_interpretation(snippet, Some("checker".to_string()), false, None) {
        Ok((output, _)) => {
            assert_eq!(output.len(), 6);
            assert_eq!(
                output[0],
                format!(
                    "checker:3:14: {}: use of potentially unchecked data",
                    yellow("warning")
                )
            );
            assert_eq!(output[1], "    (my-func amount)");
            assert_eq!(output[2], "             ^~~~~~");
            assert_eq!(
                output[3],
                format!(
                    "checker:2:26: {}: source of untrusted input here",
                    blue("note")
                )
            );
            assert_eq!(output[4], "(define-public (tainted (amount uint))");
            assert_eq!(output[5], "                         ^~~~~~");
        }
        _ => panic!("Expected successful interpretation"),
    };
}

#[test]
fn check_private_allow() {
    let mut settings = SessionSettings::default();
    settings.analysis = vec!["check_checker".to_string()];
    let mut session = Session::new(settings);
    let snippet = "
;; #[allow(unchecked_params)]
(define-private (my-transfer (amount uint))
    (begin
        (try! (stx-transfer? amount (as-contract tx-sender) tx-sender))
        (ok true)
    )
)
(define-public (tainted (amount uint))
    (my-transfer amount)
)
"
    .to_string();
    match session.formatted_interpretation(snippet, Some("checker".to_string()), false, None) {
        Ok((output, _)) => {
            assert_eq!(output.len(), 6);
            assert_eq!(
                output[0],
                format!(
                    "checker:5:30: {}: use of potentially unchecked data",
                    yellow("warning")
                )
            );
            assert_eq!(
                output[1],
                "        (try! (stx-transfer? amount (as-contract tx-sender) tx-sender))"
            );
            assert_eq!(output[2], "                             ^~~~~~");
            assert_eq!(
                output[3],
                format!(
                    "checker:3:31: {}: source of untrusted input here",
                    blue("note")
                )
            );
            assert_eq!(output[4], "(define-private (my-transfer (amount uint))");
            assert_eq!(output[5], "                              ^~~~~~");
        }
        _ => panic!("Expected successful interpretation"),
    };
}

#[test]
fn unchecked_params_safe() {
    let mut settings = SessionSettings::default();
    settings.analysis = vec!["check_checker".to_string()];
    let mut session = Session::new(settings);
    let snippet = "
;; #[allow(unchecked_params)]
(define-private (my-func (amount uint))
    (ok true)
)
(define-public (tainted (amount uint))
    (my-func amount)
)
"
    .to_string();
    match session.formatted_interpretation(snippet, Some("checker".to_string()), false, None) {
        Ok((_, result)) => {
            assert_eq!(result.diagnostics.len(), 0);
        }
        _ => panic!("Expected successful interpretation"),
    };
}

#[test]
fn unchecked_params_safe_after() {
    let mut settings = SessionSettings::default();
    settings.analysis = vec!["check_checker".to_string()];
    let mut session = Session::new(settings);
    let snippet = "
(define-public (tainted (amount uint))
    (my-func amount)
)
;; #[allow(unchecked_params)]
(define-private (my-func (amount uint))
    (ok true)
)
"
    .to_string();
    match session.formatted_interpretation(snippet, Some("checker".to_string()), false, None) {
        Ok((_, result)) => {
            assert_eq!(result.diagnostics.len(), 0);
        }
        _ => panic!("Expected successful interpretation"),
    };
}

#[test]
fn allow_unchecked_data() {
    let mut settings = SessionSettings::default();
    settings.analysis = vec!["check_checker".to_string()];
    let mut session = Session::new(settings);
    let snippet = "
(define-public (allow_tainted (amount uint))
    ;; #[allow(unchecked_data)]
    (stx-transfer? amount (as-contract tx-sender) tx-sender)
)
"
    .to_string();
    match session.formatted_interpretation(snippet, Some("checker".to_string()), false, None) {
        Ok((_, result)) => {
            assert_eq!(result.diagnostics.len(), 0);
        }
        _ => panic!("Expected successful interpretation"),
    };
}

#[test]
fn allow_unchecked_data_parent() {
    let mut settings = SessionSettings::default();
    settings.analysis = vec!["check_checker".to_string()];
    let mut session = Session::new(settings);
    let snippet = "
(define-public (allow_tainted (amount uint))
    ;; #[allow(unchecked_data)]
    (let ((x (+ amount u1)))
        (stx-transfer? amount (as-contract tx-sender) tx-sender)
    )
)
"
    .to_string();
    match session.formatted_interpretation(snippet, Some("checker".to_string()), false, None) {
        Ok((_, result)) => {
            assert_eq!(result.diagnostics.len(), 0);
        }
        _ => panic!("Expected successful interpretation"),
    };
}

#[test]
fn allow_unchecked_data_function() {
    let mut settings = SessionSettings::default();
    settings.analysis = vec!["check_checker".to_string()];
    let mut session = Session::new(settings);
    let snippet = "
;; #[allow(unchecked_data)]
(define-public (allow_tainted (amount uint))
    (stx-transfer? amount (as-contract tx-sender) tx-sender)
)
"
    .to_string();
    match session.formatted_interpretation(snippet, Some("checker".to_string()), false, None) {
        Ok((_, result)) => {
            assert_eq!(result.diagnostics.len(), 0);
        }
        _ => panic!("Expected successful interpretation"),
    };
}

#[test]
fn annotate_other_expr() {
    let mut settings = SessionSettings::default();
    settings.analysis = vec!["check_checker".to_string()];
    let mut session = Session::new(settings);
    let snippet = "
(define-public (tainted (amount uint))
    (begin
        ;; #[allow(unchecked_data)]
        (+ amount u1)
        (stx-transfer? amount (as-contract tx-sender) tx-sender)
    )
)
"
    .to_string();
    match session.formatted_interpretation(snippet, Some("checker".to_string()), false, None) {
        Ok((output, _)) => {
            assert_eq!(output.len(), 6);
            assert_eq!(
                output[0],
                format!(
                    "checker:6:24: {}: use of potentially unchecked data",
                    yellow("warning")
                )
            );
            assert_eq!(
                output[1],
                "        (stx-transfer? amount (as-contract tx-sender) tx-sender)"
            );
            assert_eq!(output[2], "                       ^~~~~~");
            assert_eq!(
                output[3],
                format!(
                    "checker:2:26: {}: source of untrusted input here",
                    blue("note")
                )
            );
            assert_eq!(output[4], "(define-public (tainted (amount uint))");
            assert_eq!(output[5], "                         ^~~~~~");
        }
        _ => panic!("Expected successful interpretation"),
    };
}

#[test]
fn annotate_other_expr2() {
    let mut settings = SessionSettings::default();
    settings.analysis = vec!["check_checker".to_string()];
    let mut session = Session::new(settings);
    let snippet = "
(define-public (tainted (amount uint))
    (begin
        (try! (stx-transfer? amount (as-contract tx-sender) tx-sender))
        ;; #[allow(unchecked_data)]
        (ok (+ amount u1))
    )
)
"
    .to_string();
    match session.formatted_interpretation(snippet, Some("checker".to_string()), false, None) {
        Ok((output, _)) => {
            assert_eq!(output.len(), 6);
            assert_eq!(
                output[0],
                format!(
                    "checker:4:30: {}: use of potentially unchecked data",
                    yellow("warning")
                )
            );
            assert_eq!(
                output[1],
                "        (try! (stx-transfer? amount (as-contract tx-sender) tx-sender))"
            );
            assert_eq!(output[2], "                             ^~~~~~");
            assert_eq!(
                output[3],
                format!(
                    "checker:2:26: {}: source of untrusted input here",
                    blue("note")
                )
            );
            assert_eq!(output[4], "(define-public (tainted (amount uint))");
            assert_eq!(output[5], "                         ^~~~~~");
        }
        _ => panic!("Expected successful interpretation"),
    };
}
