use genetics::aleatorio::desloca;
use genetics::aleatorio::largura;
use genetics::aleatorio::Aleatorio;
use genetics::aleatorio::ESCALA;

#[test]
fn intervalo_fica_dentro_dos_limites() {
    let mut aleatorio = Aleatorio::criar();
    let mut vistos = [false; 10];
    for _ in 0..2000 {
        let v = aleatorio.intervalo(10, 20);
        assert!(10 <= v && v < 20);
        vistos[v - 10] = true;
    }
    assert!(vistos.iter().all(|v| *v));
    assert_eq!(aleatorio.intervalo(7, 8), 7);
    assert_eq!(aleatorio.intervalo(usize::MAX - 1, usize::MAX), usize::MAX - 1);
}

#[test]
fn intervalo_inteiro_fica_dentro_dos_limites() {
    let mut aleatorio = Aleatorio::viciado(3);
    let mut negativos = 0;
    for _ in 0..2000 {
        let v = aleatorio.intervalo_inteiro(-3, 3);
        assert!(-3 <= v && v < 3);
        if v < 0 {
            negativos += 1;
        }
    }
    assert!(negativos > 0 && negativos < 2000);
    assert_eq!(aleatorio.intervalo_inteiro(i32::MIN, i32::MIN + 1), i32::MIN);
    let v = aleatorio.intervalo_inteiro(i32::MIN, i32::MAX);
    assert!(v < i32::MAX);
}

#[test]
fn chance_fica_abaixo_da_escala() {
    let mut aleatorio = Aleatorio::criar();
    let mut baixas = 0;
    for _ in 0..2000 {
        let c = aleatorio.chance();
        assert!(c < ESCALA);
        if c < ESCALA / 2 {
            baixas += 1;
        }
    }
    assert!(baixas > 0 && baixas < 2000);
}

#[test]
fn chance_viciada_e_constante() {
    let mut aleatorio = Aleatorio::viciado(250_000);
    for _ in 0..10 {
        assert_eq!(aleatorio.chance(), 250_000);
    }
    assert_eq!(Aleatorio::viciado(0).chance(), 0);
    assert_eq!(Aleatorio::viciado(ESCALA - 1).chance(), ESCALA - 1);
}

#[test]
fn largura_e_deslocamento_de_intervalos() {
    assert_eq!(largura(-3, 3), 6);
    assert_eq!(largura(7, 8), 1);
    assert_eq!(largura(i32::MIN, i32::MAX), u32::MAX as u64);
    assert_eq!(desloca(-3, 0), -3);
    assert_eq!(desloca(-3, 5), 2);
    assert_eq!(desloca(i32::MIN, u32::MAX as u64), i32::MAX);
    assert_eq!(desloca(i32::MAX, 0), i32::MAX);
}
