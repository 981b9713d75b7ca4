use pwdft::psp8::{self, FieldError, Psp8Error, Psp8Field};
use pwdft::text::{FloatError, IntError};
use pwdft::upf::{self, BlockError, UpfAttribute, UpfBlock, UpfError};

const UPF: &str = r#"<UPF version="2.0.1">
<PP_HEADER element=" Si" z_valence="4.0" l_max="1" number_of_proj="2" mesh_size="3" core_correction="F"/>
<PP_MESH>
<PP_R type="real" size="3"> 0.0 0.1 0.2 </PP_R>
<PP_RAB type="real" size="3"> 0.1 0.1 0.1 </PP_RAB>
</PP_MESH>
<PP_LOCAL type="real" size="3"> -1.0 -2.0 -3.0 </PP_LOCAL>
<PP_NONLOCAL>
<PP_BETA.1 type="real" size="3" angular_momentum="0"> 1.0 2.0 3.0 </PP_BETA.1>
<PP_BETA.2 type="real" size="3" angular_momentum=" 1 "> 4.0 5.0 6.0 </PP_BETA.2>
<PP_DIJ type="real" size="4"> 1.0 0.0
 0.0 2.0 </PP_DIJ>
</PP_NONLOCAL>
<PP_RHOATOM type="real" size="3"> 0.0 1.0 2.0 </PP_RHOATOM>
</UPF>
"#;

fn texts<'a>(s: &'a str, spans: &[(usize, usize)]) -> Vec<&'a str> {
    spans.iter().map(|&(a, b)| &s[a..b]).collect()
}

#[test]
fn upf_layout_of_a_small_file() {
    let l = upf::parse(UPF).unwrap();
    assert_eq!(&UPF[l.element.0..l.element.1], "Si");
    assert_eq!(&UPF[l.z_valence.0..l.z_valence.1], "4.0");
    assert_eq!(l.l_max, 1);
    assert_eq!(l.n_proj, 2);
    assert_eq!(l.mesh_size, 3);
    assert_eq!(texts(UPF, &l.r), vec!["0.0", "0.1", "0.2"]);
    assert_eq!(texts(UPF, &l.rab), vec!["0.1", "0.1", "0.1"]);
    assert_eq!(texts(UPF, &l.local), vec!["-1.0", "-2.0", "-3.0"]);
    assert_eq!(l.betas.len(), 2);
    assert_eq!(l.betas[0].l, 0);
    assert_eq!(l.betas[1].l, 1);
    assert_eq!(texts(UPF, &l.betas[1].values), vec!["4.0", "5.0", "6.0"]);
    assert_eq!(texts(UPF, &l.dij), vec!["1.0", "0.0", "0.0", "2.0"]);
    assert_eq!(texts(UPF, l.rho_atom.as_ref().unwrap()), vec!["0.0", "1.0", "2.0"]);
    assert!(!l.has_nlcc);
    assert!(l.core_charge.is_none());
    assert!(upf::is_upf_format(UPF));
    assert!(!upf::is_upf_format("<psp8>"));
}

#[test]
fn upf_core_correction_flag_and_block() {
    let content = UPF.replace("core_correction=\"F\"", "core_correction=\"T\"").replace(
        "</UPF>",
        "<PP_NLCC size=\"3\"> 0.5 0.25 0.0 </PP_NLCC>\n</UPF>",
    );
    let l = upf::parse(&content).unwrap();
    assert!(l.has_nlcc);
    assert_eq!(texts(&content, l.core_charge.as_ref().unwrap()), vec!["0.5", "0.25", "0.0"]);
    // Declared but absent: no data.
    let flagged = UPF.replace("core_correction=\"F\"", "core_correction=\"t\"");
    let l = upf::parse(&flagged).unwrap();
    assert!(l.has_nlcc);
    assert!(l.core_charge.is_none());
}

#[test]
fn upf_optional_rho_atom() {
    let content = UPF.replace("<PP_RHOATOM type=\"real\" size=\"3\"> 0.0 1.0 2.0 </PP_RHOATOM>", "");
    let l = upf::parse(&content).unwrap();
    assert!(l.rho_atom.is_none());
}

#[test]
fn upf_errors_in_reading_order() {
    let no_z = UPF.replace("z_valence=\"4.0\"", "");
    assert_eq!(upf::parse(&no_z).err(), Some(UpfError::MissingAttribute(UpfAttribute::ZValence)));
    let bad_z = UPF.replace("z_valence=\"4.0\"", "z_valence=\"four\"");
    assert_eq!(upf::parse(&bad_z).err(), Some(UpfError::ZValence(FloatError::Invalid)));
    let empty_z = UPF.replace("z_valence=\"4.0\"", "z_valence=\"  \"");
    assert_eq!(upf::parse(&empty_z).err(), Some(UpfError::ZValence(FloatError::Empty)));
    let bad_l = UPF.replace("l_max=\"1\"", "l_max=\"x\"");
    assert_eq!(upf::parse(&bad_l).err(), Some(UpfError::LMax(IntError::InvalidDigit)));
    let no_element = UPF.replace("element=\" Si\"", "");
    assert_eq!(upf::parse(&no_element).err(), Some(UpfError::MissingAttribute(UpfAttribute::Element)));
    let big_proj = UPF.replace("number_of_proj=\"2\"", "number_of_proj=\"99999999999999999999\"");
    assert_eq!(upf::parse(&big_proj).err(), Some(UpfError::NumberOfProj(IntError::PosOverflow)));
    let bad_mesh = UPF.replace("mesh_size=\"3\"", "mesh_size=\"-3\"");
    assert_eq!(upf::parse(&bad_mesh).err(), Some(UpfError::MeshSize(IntError::InvalidDigit)));
    let no_dij = UPF.replace("PP_DIJ", "PP_XIJ");
    assert_eq!(upf::parse(&no_dij).err(), Some(UpfError::Block(UpfBlock::Dij, BlockError::MissingTag)));
    let no_am = UPF.replace("angular_momentum=\" 1 \"", "");
    assert_eq!(upf::parse(&no_am).err(), Some(UpfError::MissingAngularMomentum(2)));
    let short = UPF.replace("0.0 0.1 0.2", "0.0 0.1");
    assert_eq!(
        upf::parse(&short).err(),
        Some(UpfError::Block(UpfBlock::R, BlockError::WrongCount { expected: 3, found: 2 }))
    );
    let bad = UPF.replace("0.0 0.1 0.2", "0.0 abc 0.2");
    let start = bad.find("abc").unwrap();
    assert_eq!(
        upf::parse(&bad).err(),
        Some(UpfError::Block(
            UpfBlock::R,
            BlockError::BadValue { start, end: start + 3, kind: FloatError::Invalid }
        ))
    );
    let unclosed = UPF.replace("</PP_LOCAL>", "");
    assert_eq!(
        upf::parse(&unclosed).err(),
        Some(UpfError::Block(UpfBlock::Local, BlockError::MissingClosingTag))
    );
}

#[test]
fn upf_helpers() {
    let (a, b) = upf::extract_attr(UPF, "mesh_size").unwrap();
    assert_eq!(&UPF[a..b], "3");
    assert_eq!(upf::extract_attr(UPF, "missing"), None);
    assert_eq!(upf::extract_beta_angular_momentum(UPF, "PP_BETA.2"), Some(1));
    assert_eq!(upf::extract_beta_angular_momentum(UPF, "PP_BETA.3"), None);
    let spans = upf::extract_data_block(UPF, "PP_RAB", 3).unwrap();
    assert_eq!(spans.len(), 3);
    assert_eq!(
        upf::extract_data_block(UPF, "PP_RAB", 4).err(),
        Some(BlockError::WrongCount { expected: 4, found: 3 })
    );
    assert_eq!(upf::extract_data_block("<PP_X", "PP_X", 0).err(), Some(BlockError::MalformedTag));
}

const PSP8: &str = "Si title
14.0 4.0 170510  zatom,zion,pspd
8 2 1 1 3 0  pspcod,pspxc,lmax,lloc,mmax,r2well
1.5 0.0 0.0  rchrg fchrg qchrg
1 1  nproj
0  extension_switch
0 -1.0
1 0.0 0.5
2 0.1 0.6
3 0.2 0.7
1
1 0.0 -1.0
2 0.1 -2.0
3 0.2 -3.0
";

#[test]
fn psp8_layout_of_a_small_file() {
    let l = psp8::parse(PSP8).unwrap();
    assert_eq!(&PSP8[l.zatom.0..l.zatom.1], "14.0");
    assert_eq!(&PSP8[l.zion.0..l.zion.1], "4.0");
    assert_eq!(l.l_max, 1);
    assert_eq!(l.lloc, 1);
    assert_eq!(l.mmax, 3);
    assert_eq!(&PSP8[l.fchrg.0..l.fchrg.1], "0.0");
    assert_eq!(l.nproj, vec![1, 1]);
    assert_eq!(texts(PSP8, &l.r), vec!["0.0", "0.1", "0.2"]);
    assert_eq!(l.betas.len(), 1);
    assert_eq!(l.betas[0].l, 0);
    assert_eq!(texts(PSP8, &l.betas[0].values), vec!["0.5", "0.6", "0.7"]);
    assert_eq!(texts(PSP8, &l.vloc), vec!["-1.0", "-2.0", "-3.0"]);
}

#[test]
fn psp8_without_projectors_reads_grid_from_local_block() {
    let content = PSP8.replace("1 1  nproj", "0 0  nproj");
    // Without projector blocks, the local block starts right after line 6.
    let lines: Vec<&str> = content.lines().collect();
    let trimmed = [&lines[..6], &lines[10..]].concat().join("\n");
    let l = psp8::parse(&trimmed).unwrap();
    assert!(l.betas.is_empty());
    assert_eq!(texts(&trimmed, &l.r), vec!["0.0", "0.1", "0.2"]);
    assert_eq!(texts(&trimmed, &l.vloc), vec!["-1.0", "-2.0", "-3.0"]);
}

#[test]
fn psp8_errors() {
    assert_eq!(psp8::parse("a\nb\nc").err(), Some(Psp8Error::TooShort));
    let wrong = PSP8.replace("8 2 1 1 3 0", "7 2 1 1 3 0");
    assert_eq!(psp8::parse(&wrong).err(), Some(Psp8Error::WrongPspcod(7)));
    let bad_z = PSP8.replace("14.0 4.0", "x 4.0");
    assert_eq!(
        psp8::parse(&bad_z).err(),
        Some(Psp8Error::Field(Psp8Field::Zatom, FieldError::Float(FloatError::Invalid)))
    );
    let missing = PSP8.replace("1 1  nproj", "1");
    assert_eq!(
        psp8::parse(&missing).err(),
        Some(Psp8Error::Field(Psp8Field::Nproj(1), FieldError::Missing { index: 1 }))
    );
    let bad_mmax = PSP8.replace("8 2 1 1 3 0", "8 2 1 1 -3 0");
    assert_eq!(
        psp8::parse(&bad_mmax).err(),
        Some(Psp8Error::Field(Psp8Field::Mmax, FieldError::Int(IntError::InvalidDigit)))
    );
    let truncated: String = PSP8.lines().take(12).collect::<Vec<_>>().join("\n");
    assert_eq!(psp8::parse(&truncated).err(), Some(Psp8Error::EndOfLocal));
    let truncated: String = PSP8.lines().take(8).collect::<Vec<_>>().join("\n");
    assert_eq!(psp8::parse(&truncated).err(), Some(Psp8Error::EndOfData));
    let bad_value = PSP8.replace("2 0.1 0.6", "2 0.1 zz");
    assert_eq!(
        psp8::parse(&bad_value).err(),
        Some(Psp8Error::Field(Psp8Field::Projector, FieldError::Float(FloatError::Invalid)))
    );
}

#[test]
fn psp8_end_of_file_before_projector_header() {
    // Two projectors for l = 0 but only one block in the file: the second
    // header line is the local block's header, and its data runs out.
    let content = PSP8.replace("1 1  nproj", "3 1  nproj");
    let lines: Vec<&str> = content.lines().take(10).collect();
    let text = lines.join("\n");
    assert_eq!(psp8::parse(&text).err(), Some(Psp8Error::EndOfFile));
}

#[test]
fn parse_field_reports_missing_and_bad_fields() {
    let s = b"1 2.5 x";
    let fields = vec![(0usize, 1usize), (2, 5), (6, 7)];
    assert_eq!(psp8::parse_field(s, &fields, 1), Ok((2, 5)));
    assert_eq!(psp8::parse_field(s, &fields, 2), Err(FieldError::Float(FloatError::Invalid)));
    assert_eq!(psp8::parse_field(s, &fields, 3), Err(FieldError::Missing { index: 3 }));
}
