use aco_tsp::instance_data::{DataError, EdgeWeightType};
use aco_tsp::tsplib::{parse_coord_line, parse_instance, ReadError};

fn lines(text: &str) -> Vec<String> {
    text.lines().map(|l| l.to_string()).collect()
}

const SQUARE: &str = "NAME : square4
COMMENT : a square: four cities
TYPE : TSP
DIMENSION : 4
EDGE_WEIGHT_TYPE : EUC_2D
NODE_COORD_SECTION
1 0 0
2 0 10
3 10 10
4 10 0
EOF
";

#[test]
fn reads_square() {
    let f = parse_instance(&lines(SQUARE)).unwrap();
    assert_eq!(f.metadata.name, "square4");
    assert!(matches!(f.metadata.edge_weight_type, Some(EdgeWeightType::EUC_2D)));
    assert_eq!(f.data.size, 4);
    assert_eq!(f.data.distances[(0, 1)], 10);
    assert_eq!(f.data.distances[(0, 2)], 14);
    assert_eq!(f.data.distances[(3, 3)], u32::MAX);
}

#[test]
fn reads_without_eof_line() {
    let text = "DIMENSION: 2\nEDGE_WEIGHT_TYPE: EUC_2D\nNODE_COORD_SECTION\n1 0 0\n2 -3 -4\n";
    let f = parse_instance(&lines(text)).unwrap();
    assert_eq!(f.metadata.name, "");
    assert_eq!(f.data.distances[(1, 0)], 5);
}

#[test]
fn coordinate_lines() {
    assert_eq!(parse_coord_line("1 10 -20"), Some((10, -20)));
    assert_eq!(parse_coord_line("  3\t+5   7 extra"), Some((5, 7)));
    assert_eq!(parse_coord_line("1 10"), None);
    assert_eq!(parse_coord_line("1 10 2.5"), None);
    assert_eq!(parse_coord_line("1 2147483648 0"), None);
    assert_eq!(parse_coord_line("1 -2147483648 2147483647"), Some((i32::MIN, i32::MAX)));
    assert_eq!(parse_coord_line(""), None);
}

#[test]
fn header_errors() {
    let bad_dim = "DIMENSION: four\nEDGE_WEIGHT_TYPE: EUC_2D\nNODE_COORD_SECTION\n";
    assert_eq!(parse_instance(&lines(bad_dim)).err(), Some(ReadError::MalformedHeader));
    let no_value = "NAME\nNODE_COORD_SECTION\n";
    assert_eq!(parse_instance(&lines(no_value)).err(), Some(ReadError::MalformedHeader));
    let geo = "EDGE_WEIGHT_TYPE: GEO\nNODE_COORD_SECTION\n";
    assert_eq!(parse_instance(&lines(geo)).err(), Some(ReadError::UnknownEdgeWeightType));
    let no_section = "NAME: x\nDIMENSION: 2\n";
    assert_eq!(parse_instance(&lines(no_section)).err(), Some(ReadError::MissingCoordSection));
}

#[test]
fn section_errors() {
    let bad = "DIMENSION: 2\nEDGE_WEIGHT_TYPE: EUC_2D\nNODE_COORD_SECTION\n1 0 0\n2 x 1\nEOF\n";
    assert_eq!(parse_instance(&lines(bad)).err(), Some(ReadError::MalformedCoordinates));
    let no_type = "DIMENSION: 2\nNODE_COORD_SECTION\n1 0 0\n2 1 1\n";
    assert_eq!(parse_instance(&lines(no_type)).err(), Some(ReadError::MissingEdgeWeightType));
    let count = "DIMENSION: 3\nEDGE_WEIGHT_TYPE: EUC_2D\nNODE_COORD_SECTION\n1 0 0\n2 1 1\nEOF\n";
    assert_eq!(parse_instance(&lines(count)).err(), Some(ReadError::DimensionMismatch));
    let one = "DIMENSION: 1\nEDGE_WEIGHT_TYPE: EUC_2D\nNODE_COORD_SECTION\n1 0 0\nEOF\n";
    assert_eq!(
        parse_instance(&lines(one)).err(),
        Some(ReadError::Data(DataError::TooFewCities))
    );
}
