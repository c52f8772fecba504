use dog::detect::{which_file, FileType};

#[test]
fn csv_extension_is_delimited_text() {
    assert_eq!(which_file("catalog.csv"), FileType::Csv);
}

#[test]
fn fits_extension_is_scientific_binary() {
    assert_eq!(which_file("survey.fits"), FileType::Fits);
}

#[test]
fn parquet_extension_is_columnar_binary() {
    assert_eq!(which_file("data.parquet"), FileType::Parquet);
}

#[test]
fn unknown_extension_falls_back_to_columnar_binary() {
    assert_eq!(which_file("notes.txt"), FileType::Parquet);
    assert_eq!(which_file("archive.fits.gz"), FileType::Parquet);
}

#[test]
fn name_without_dot_falls_back_to_columnar_binary() {
    assert_eq!(which_file("README"), FileType::Parquet);
    assert_eq!(which_file("csv"), FileType::Parquet);
    assert_eq!(which_file("fits"), FileType::Parquet);
    assert_eq!(which_file(""), FileType::Parquet);
}

#[test]
fn only_the_last_extension_counts() {
    assert_eq!(which_file("a.fits.csv"), FileType::Csv);
    assert_eq!(which_file("dir.d/table.fits"), FileType::Fits);
    assert_eq!(which_file(".csv"), FileType::Csv);
}

#[test]
fn extension_match_is_case_sensitive() {
    assert_eq!(which_file("catalog.CSV"), FileType::Parquet);
    assert_eq!(which_file("survey.Fits"), FileType::Parquet);
}

#[test]
fn trailing_dot_is_an_empty_extension() {
    assert_eq!(which_file("catalog.csv."), FileType::Parquet);
}
