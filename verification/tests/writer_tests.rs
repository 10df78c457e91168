use nbody::environment::Environment;
use nbody::field::FieldVariant;
use nbody::force::BruteForceField;
use nbody::geometry::{Point, Vector};
use nbody::physics::Body;
use nbody::writer::DataWriter;

#[test]
fn data_writer_writes() {
    let mut writer = DataWriter::new("temp");

    let first = writer.write(vec![Point::new(3_400, 6_700)]);
    let second = writer.write(vec![Point::new(6_400, 6_785)]);

    assert_eq!(first.path, "temp/frame-0.txt");
    assert_eq!(first.content, "3.4,6.7\n");
    assert_eq!(second.path, "temp/frame-1.txt");
    assert_eq!(second.content, "6.4,6.785\n");
}

#[test]
fn rendering_covers_signs_and_fractions() {
    let mut writer = DataWriter::new("d");
    let frame = writer.write(vec![
        Point::new(0, -1),
        Point::new(-2_500, 1_000_000),
        Point::new(12, -300),
    ]);
    assert_eq!(frame.content, "0,-0.001\n-2.5,1000\n0.012,-0.3\n");
}

#[test]
fn frames_are_numbered_sequentially() {
    let field = BruteForceField::new();
    let writer = DataWriter::new("run");
    let mut env = Environment::new(vec![FieldVariant::Brute(field)], writer);
    env.bodies = vec![
        Body::new(1_000, Point::new(0, 0), Vector::zero()).unwrap(),
        Body::new(1_000, Point::new(1_000, 0), Vector::zero()).unwrap(),
    ];

    let frames = vec![env.update(), env.update(), env.update()];

    for (i, frame) in frames.iter().enumerate() {
        assert_eq!(frame.path, format!("run/frame-{}.txt", i));
        let lines: Vec<&str> = frame.content.split('\n').collect();
        // one line per body plus the empty split tail after the final newline
        assert_eq!(lines.len(), 3);
        assert_eq!(lines[2], "");
        for line in &lines[..2] {
            let parts: Vec<&str> = line.split(',').collect();
            assert_eq!(parts.len(), 2, "line not exactly x,y: {:?}", line);
            assert!(!parts[0].is_empty() && !parts[1].is_empty());
        }
    }
}

#[test]
fn writer_directory_is_kept() {
    let mut writer = DataWriter::new("deep/nested");
    let frame = writer.write(vec![]);
    assert_eq!(frame.path, "deep/nested/frame-0.txt");
    assert_eq!(frame.content, "");
}
