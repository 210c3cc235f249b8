use slicot::slicot_io::{
    parse_ab01md_dat, parse_ab01md_res, parse_ab01nd_dat, parse_ab01nd_res, parse_n_m_tol_jobz, render_ab01nd_dat,
    render_ab01nd_res, Ab01ndDatText,
};
use slicot::text::{
    chars_of, contains_chars, decimal_chars, i32_chars, is_float_literal, is_whitespace, parse_i32, parse_usize,
    right_align, second_eq_piece, split_ws, starts_with_chars, string_of, trim_chars,
};

fn lines_of(raw: &str) -> Vec<String> {
    raw.lines().map(|l| l.to_string()).collect()
}

fn cv(s: &str) -> Vec<char> {
    s.chars().collect()
}

#[test]
fn parse_ab01nd_dat_example() {
    let raw = " AB01ND EXAMPLE PROGRAM DATA\n   3     2     0.0     I\n  -1.0   0.0   0.0\n  -2.0  -2.0  -2.0\n  -1.0   0.0  -3.0\n   1.0   0.0   0.0\n   0.0   2.0   1.0\n";
    let d = parse_ab01nd_dat(&lines_of(raw), &None).unwrap();
    assert_eq!(d.n, 3);
    assert_eq!(d.m, 2);
    assert_eq!(d.jobz, 'I');
    assert_eq!(d.a[0].parse::<f64>().unwrap(), -1.0);
    assert_eq!(d.b[0].parse::<f64>().unwrap(), 1.0);
}

#[test]
fn roundtrip_ab01nd_dat() {
    let d = Ab01ndDatText {
        n: 2,
        m: 1,
        tol: "0".to_string(),
        jobz: 'N',
        a: vec!["1".to_string(), "0".to_string(), "0".to_string(), "1".to_string()],
        b: vec!["0".to_string(), "1".to_string()],
    };
    let out = render_ab01nd_dat(&d);
    let d2 = parse_ab01nd_dat(&out, &None).unwrap();
    assert_eq!(d2.n, d.n);
    assert_eq!(d2.m, d.m);
    assert_eq!(d2.a[0].parse::<f64>().unwrap(), d.a[0].parse::<f64>().unwrap());
    assert_eq!(d2.tol, d.tol);
    assert_eq!(d2.jobz, d.jobz);
    assert_eq!(d2.a, d.a);
    assert_eq!(d2.b, d.b);
}

#[test]
fn ab01nd_dat_errors() {
    assert_eq!(parse_ab01nd_dat(&vec![], &None).err().unwrap(), "missing first line");
    assert_eq!(
        parse_ab01nd_dat(&vec![], &Some("disk gone".to_string())).err().unwrap(),
        "disk gone"
    );
    assert_eq!(parse_ab01nd_dat(&lines_of(" AB01ND DATA\n"), &None).err().unwrap(), "missing N M TOL JOBZ line");
    assert_eq!(parse_ab01nd_dat(&lines_of("x 1 0.0 I\n"), &None).err().unwrap(), "bad N");
    assert_eq!(parse_ab01nd_dat(&lines_of("1 y 0.0 I\n"), &None).err().unwrap(), "bad M");
    assert_eq!(parse_ab01nd_dat(&lines_of("1 1 tol I\n"), &None).err().unwrap(), "bad TOL");
    assert_eq!(parse_ab01nd_dat(&lines_of("1 1 0.0\n"), &None).err().unwrap(), "need N M TOL JOBZ");
    assert_eq!(parse_ab01nd_dat(&lines_of("1 1 0.0 I\n"), &None).err().unwrap(), "missing A row");
    assert_eq!(parse_ab01nd_dat(&lines_of("1 1 0.0 I\nz\n"), &None).err().unwrap(), "bad A value");
    assert_eq!(parse_ab01nd_dat(&lines_of("1 1 0.0 I\n2.0\n"), &None).err().unwrap(), "missing B row");
    assert_eq!(parse_ab01nd_dat(&lines_of("1 1 0.0 I\n2.0\nq\n"), &None).err().unwrap(), "bad B value");
    let d = parse_ab01nd_dat(&lines_of("1 1 0.0 I\n2.0\n3.0\n"), &None).unwrap();
    assert_eq!(d.a, vec!["2.0".to_string()]);
    assert_eq!(d.b, vec!["3.0".to_string()]);
}

#[test]
fn ab01md_dat_reads_a_and_b() {
    let raw = " AB01MD EXAMPLE PROGRAM DATA\n   3     0.0     I\n   1.0   2.0   0.0\n   4.0  -1.0   0.0\n   0.0   0.0   1.0\n   1.0   0.0   1.0\n";
    let d = parse_ab01md_dat(&lines_of(raw), &None).unwrap();
    assert_eq!(d.n, 3);
    assert_eq!(d.jobz, 'I');
    assert_eq!(d.a.len(), 9);
    assert_eq!(d.a[3], "4.0");
    assert_eq!(d.b, vec!["1.0".to_string(), "0.0".to_string(), "1.0".to_string()]);
}

#[test]
fn header_line() {
    let (n, m, tol, jobz) = parse_n_m_tol_jobz(&cv("  4  2  1.0E-3  F")).unwrap();
    assert_eq!((n, m, tol.as_str(), jobz), (4, 2, "1.0E-3", 'F'));
    assert!(parse_n_m_tol_jobz(&cv("4 2")).is_err());
}

#[test]
fn ab01nd_result_renders_and_reads_back() {
    let nblk = vec![2, 1];
    let a = vec![vec!["1.0000".to_string(), "2.0000".to_string()], vec!["3.0000".to_string(), "4.0000".to_string()]];
    let b = vec![vec!["5.0000".to_string()], vec!["6.0000".to_string()]];
    let lines = render_ab01nd_res(0, 2, 1, &nblk, &a, &b, &None);
    assert!(lines.len() > 4);
    let r = parse_ab01nd_res(&lines, &None).unwrap();
    assert_eq!(r.info, 0);
    assert_eq!(r.ncont, 2);
    assert_eq!(r.indcon, 1);
    assert_eq!(r.nblk, vec![2, 1]);
    assert_eq!(r.a_cont, vec![(2, a.clone())]);
    assert_eq!(r.b_cont, vec![(2, b.clone())]);
    assert!(r.z.is_none());
}

#[test]
fn ab01nd_result_with_z_reads_back() {
    let nblk = vec![2];
    let a = vec![vec!["1.0000".to_string(), "2.0000".to_string()], vec!["3.0000".to_string(), "4.0000".to_string()]];
    let b = vec![vec!["5.0000".to_string()], vec!["6.0000".to_string()]];
    let z = vec![vec!["0.6000".to_string(), "0.8000".to_string()], vec!["-0.8000".to_string(), "0.6000".to_string()]];
    let lines = render_ab01nd_res(0, 2, 1, &nblk, &a, &b, &Some(z.clone()));
    let r = parse_ab01nd_res(&lines, &None).unwrap();
    assert_eq!(r.ncont, 2);
    assert_eq!(r.a_cont, vec![(2, a.clone())]);
    assert_eq!(r.b_cont, vec![(2, b.clone())]);
    assert_eq!(r.z, Some(z));
}

#[test]
fn ab01nd_failed_result_reads_back_its_info() {
    let a = vec![vec!["1.0".to_string()]];
    let lines = render_ab01nd_res(-3, 1, 1, &vec![1], &a, &a, &None);
    assert_eq!(lines.len(), 3);
    let r = parse_ab01nd_res(&lines, &None).unwrap();
    assert_eq!(r.info, -3);
    assert_eq!(r.ncont, 0);
    assert_eq!(r.indcon, 0);
    assert!(r.nblk.is_empty());
    assert!(r.a_cont.is_empty());
    assert!(r.b_cont.is_empty());
    assert!(r.z.is_none());
}

#[test]
fn ab01md_result_reads_the_order() {
    let raw = " AB01MD EXAMPLE PROGRAM RESULTS\n\n The order of the controllable state-space representation =  3\n";
    let r = parse_ab01md_res(&lines_of(raw), &None).unwrap();
    assert_eq!(r.ncont, 3);
}

#[test]
fn numbers_and_tokens() {
    assert_eq!(parse_usize(&cv("042")), Some(42));
    assert_eq!(parse_usize(&cv("+7")), Some(7));
    assert_eq!(parse_usize(&cv("-1")), None);
    assert_eq!(parse_usize(&cv("")), None);
    assert_eq!(parse_usize(&cv("18446744073709551616")), None);
    assert_eq!(parse_i32(&cv("-17")), Some(-17));
    assert_eq!(parse_i32(&cv("2147483648")), None);
    assert_eq!(parse_i32(&cv("-2147483648")), Some(i32::MIN));
    assert!(is_float_literal(&cv("-1.5e3")));
    assert!(is_float_literal(&cv(".5")));
    assert!(is_float_literal(&cv("inf")));
    assert!(is_float_literal(&cv("NaN")));
    assert!(!is_float_literal(&cv("1.2.3")));
    assert!(!is_float_literal(&cv("e5")));
    for s in ["-1.5e3", ".5", "7", "1E-3", "+2.", "infinity"] {
        assert!(s.parse::<f64>().is_ok(), "{}", s);
        assert!(is_float_literal(&cv(s)));
    }
    let toks = split_ws(&cv("  a bb\tccc  "));
    assert_eq!(toks, vec![cv("a"), cv("bb"), cv("ccc")]);
    assert_eq!(trim_chars(&cv("  x y \n")), cv("x y"));
    assert!(is_whitespace('\t'));
    assert!(!is_whitespace('x'));
    assert!(contains_chars(&cv("hello world"), &cv("o w")));
    assert!(!contains_chars(&cv("hello"), &cv("world")));
    assert!(starts_with_chars(&cv("hello"), &cv("he")));
    assert_eq!(second_eq_piece(&cv("a = 3 = 4")), Some(cv(" 3 ")));
    assert_eq!(second_eq_piece(&cv("no equals")), None);
    assert_eq!(decimal_chars(0), cv("0"));
    assert_eq!(decimal_chars(1203), cv("1203"));
    assert_eq!(i32_chars(-45), cv("-45"));
    assert_eq!(right_align(&cv("7"), 3), cv("  7"));
    assert_eq!(right_align(&cv("1234"), 3), cv("1234"));
    assert_eq!(string_of(&chars_of("abc")), "abc".to_string());
}
